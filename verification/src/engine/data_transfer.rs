//! The values that cross from the host and the control plane to the running
//! program: global parameters, transport data, and the data format a
//! compilation fixes.

use crate::scalar::Scalar;
use vstd::prelude::*;

verus! {

/// Number of controllers a host can drive.
pub const NUM_CONTROLLERS: usize = 128;

/// The bits of `120.0`, the tempo a transport starts at.
pub const DEFAULT_BPM_BITS: u32 = 0x42F0_0000;

/// Parameters every compilation is specialised to.
#[derive(Clone, Copy, Debug, PartialEq, Eq, Structural)]
pub struct GlobalParameters {
    pub channels: usize,
    pub buffer_length: usize,
    pub sample_rate: usize,
}

impl GlobalParameters {
    /// Number of samples in one rendered buffer: one per channel and frame.
    pub open spec fn frame_len(self) -> nat {
        (self.channels * self.buffer_length) as nat
    }

    /// A rendered buffer can be addressed.
    pub open spec fn fits(self) -> bool {
        self.frame_len() <= usize::MAX
    }

    /// Whether a rendered buffer can be addressed.
    pub fn is_addressable(&self) -> (ok: bool)
        ensures
            ok == self.fits(),
    {
        self.channels.checked_mul(self.buffer_length).is_some()
    }

    /// Number of samples in one rendered buffer.
    pub fn frame_length(&self) -> (n: usize)
        requires
            self.fits(),
        ensures
            n == self.frame_len(),
    {
        self.channels * self.buffer_length
    }
}

/// What the audio thread knows of the transport and the host's controllers.
/// A copy travels with every render request.
#[derive(Debug)]
pub struct GlobalData {
    pub elapsed_time: Scalar,
    pub elapsed_beats: Scalar,
    pub bpm: Scalar,
    pub pitch_wheel: Scalar,
    pub controller_values: Vec<Scalar>,
}

/// Transport data as a value.
pub struct GlobalDataView {
    pub elapsed_time: Scalar,
    pub elapsed_beats: Scalar,
    pub bpm: Scalar,
    pub pitch_wheel: Scalar,
    pub controller_values: Seq<Scalar>,
}

impl View for GlobalData {
    type V = GlobalDataView;

    open spec fn view(&self) -> GlobalDataView {
        GlobalDataView {
            elapsed_time: self.elapsed_time,
            elapsed_beats: self.elapsed_beats,
            bpm: self.bpm,
            pitch_wheel: self.pitch_wheel,
            controller_values: self.controller_values@,
        }
    }
}

impl GlobalDataView {
    /// There is one value per controller, and the wheel and every controller
    /// lie between `-1.0` and `1.0`.
    pub open spec fn valid(self) -> bool {
        &&& self.controller_values.len() == NUM_CONTROLLERS
        &&& self.pitch_wheel.in_unit_range()
        &&& forall|i: int| 0 <= i < self.controller_values.len() ==> (#[trigger] self.controller_values[i]).in_unit_range()
    }

    /// Transport data at rest: time zero, 120 beats a minute, everything
    /// centred.
    pub open spec fn initial() -> GlobalDataView {
        GlobalDataView {
            elapsed_time: Scalar { bits: 0 },
            elapsed_beats: Scalar { bits: 0 },
            bpm: Scalar { bits: DEFAULT_BPM_BITS },
            pitch_wheel: Scalar { bits: 0 },
            controller_values: Seq::new(NUM_CONTROLLERS as nat, |i: int| Scalar { bits: 0 }),
        }
    }
}

impl GlobalData {
    /// Transport data at rest.
    pub fn new() -> (data: GlobalData)
        ensures
            data@ == GlobalDataView::initial(),
            data@.valid(),
    {
        let mut controller_values: Vec<Scalar> = Vec::new();
        let mut i: usize = 0;
        while i < NUM_CONTROLLERS
            invariant
                i <= NUM_CONTROLLERS,
                controller_values@.len() == i,
                forall|j: int| 0 <= j < i ==> controller_values@[j] == (Scalar { bits: 0 }),
            decreases NUM_CONTROLLERS - i,
        {
            controller_values.push(Scalar::zero());
            i += 1;
        }
        assert(controller_values@ =~= GlobalDataView::initial().controller_values);
        GlobalData {
            elapsed_time: Scalar::zero(),
            elapsed_beats: Scalar::zero(),
            bpm: Scalar::from_bits(DEFAULT_BPM_BITS),
            pitch_wheel: Scalar::zero(),
            controller_values,
        }
    }

    /// Whether the data is valid: one value per controller, and the wheel
    /// and every controller between `-1.0` and `1.0`.
    pub fn is_valid(&self) -> (ok: bool)
        ensures
            ok == self@.valid(),
    {
        if self.controller_values.len() != NUM_CONTROLLERS || !self.pitch_wheel.is_in_unit_range() {
            return false;
        }
        let mut i: usize = 0;
        while i < self.controller_values.len()
            invariant
                i <= self.controller_values.len(),
                forall|j: int| 0 <= j < i ==> (#[trigger] self.controller_values@[j]).in_unit_range(),
            decreases self.controller_values.len() - i,
        {
            if !self.controller_values[i].is_in_unit_range() {
                return false;
            }
            i += 1;
        }
        true
    }

    /// A copy, as one travels with a render request.
    pub fn snapshot(&self) -> (copy: GlobalData)
        ensures
            copy@ == self@,
    {
        let mut controller_values: Vec<Scalar> = Vec::new();
        let mut i: usize = 0;
        while i < self.controller_values.len()
            invariant
                i <= self.controller_values.len(),
                controller_values@.len() == i,
                forall|j: int| 0 <= j < i ==> controller_values@[j] == self.controller_values@[j],
            decreases self.controller_values.len() - i,
        {
            controller_values.push(self.controller_values[i]);
            i += 1;
        }
        assert(controller_values@ =~= self.controller_values@);
        GlobalData {
            elapsed_time: self.elapsed_time,
            elapsed_beats: self.elapsed_beats,
            bpm: self.bpm,
            pitch_wheel: self.pitch_wheel,
            controller_values,
        }
    }
}

/// The layout of the data a compiled program takes in and gives back.
#[derive(Clone, Copy, Debug, PartialEq, Eq, Structural)]
pub struct DataFormat {
    pub global_params: GlobalParameters,
    pub dyn_data_len: usize,
    pub feedback_data_len: usize,
}

} // verus!
