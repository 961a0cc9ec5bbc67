//! Sequences of values kept as text in a complex control: a bracket, then
//! one cell of fixed width for each step, then a bracket.

use crate::gui::module_widgets::ControlRef;
use vstd::prelude::*;
use vstd::string::*;

verus! {

/// Digits after the point in a cell.
pub const VALUE_DECIMALS: usize = 5;

/// Width of a cell: the digits, two for `0.`, one for the sign, one for the
/// comma.
pub const VALUE_LENGTH: usize = VALUE_DECIMALS + 4;

/// The cell of a step at zero.
pub open spec fn zero_cell() -> Seq<char> {
    " 0.00000,"@
}

/// The sequence a new control starts with: two steps up, two steps down.
pub open spec fn default_sequence() -> Seq<char> {
    "[ 1.00000, 1.00000,-1.00000,-1.00000,]"@
}

/// `n` cells at zero.
pub open spec fn zero_cells(n: nat) -> Seq<char>
    decreases n,
{
    if n == 0 {
        Seq::empty()
    } else {
        zero_cells((n - 1) as nat) + zero_cell()
    }
}

/// Number of steps in a sequence that takes `len` bytes.
pub open spec fn steps_in(len: nat) -> int {
    (len - 2) / (VALUE_LENGTH as int)
}

/// A sequence cut down or filled up with zeros to `new_length` steps.
pub open spec fn resized(value: Seq<char>, new_length: int) -> Seq<char> {
    let current = steps_in(value.len());
    if new_length < current {
        value.subrange(0, 1 + VALUE_LENGTH * new_length) + seq![']']
    } else if new_length > current {
        value.subrange(0, value.len() - 1) + zero_cells((new_length - current) as nat) + seq![']']
    } else {
        value
    }
}

/// Number of steps in a sequence.
pub fn parse_sequence_length(value: &str) -> (steps: usize)
    requires
        value.spec_bytes().len() >= 2,
    ensures
        steps == steps_in(value.spec_bytes().len()),
{
    (value.as_bytes().len() - 2) / VALUE_LENGTH
}

/// Where in a sequence the cell of step `clicked_step` begins, and where the
/// comma that ends it stands, one past.
pub fn sequenced_value_span(clicked_step: usize) -> (span: (usize, usize))
    requires
        clicked_step * VALUE_LENGTH + 1 + VALUE_LENGTH <= usize::MAX,
    ensures
        span.0 == clicked_step * VALUE_LENGTH + 1,
        span.1 == span.0 + VALUE_LENGTH,
{
    let value_start: usize = clicked_step * VALUE_LENGTH + 1;
    (value_start, value_start + VALUE_LENGTH)
}

/// What every box that holds a whole number has.
#[derive(Debug)]
pub struct IntBoxBase {
    pub tooltip: String,
    pub pos: (i32, i32),
    pub range: (i32, i32),
    pub label: String,
}

impl IntBoxBase {
    pub fn create(tooltip: String, pos: (i32, i32), range: (i32, i32), label: String) -> (base: IntBoxBase)
        ensures
            base == (IntBoxBase { tooltip, pos, range, label }),
    {
        IntBoxBase { tooltip, pos, range, label }
    }
}

/// The box that holds the number of steps of a sequence.
#[derive(Debug)]
pub struct ValueSequenceLength {
    pub base: IntBoxBase,
    pub sequence_control: ControlRef,
}

/// Fewest steps a sequence can have.
pub const MIN_STEPS: i32 = 1;

/// Most steps a sequence can have.
pub const MAX_STEPS: i32 = 99;

impl ValueSequenceLength {
    pub fn create(pos: (i32, i32), sequence_control: ControlRef, label: String, tooltip: String) -> (made: Self)
        ensures
            made.sequence_control == sequence_control,
            made.base == (IntBoxBase { tooltip, pos, range: (MIN_STEPS, MAX_STEPS), label }),
    {
        Self { base: IntBoxBase::create(tooltip, pos, (MIN_STEPS, MAX_STEPS), label), sequence_control }
    }

    /// What the complex control at `sequence_control_index` starts with.
    pub fn get_defaults(sequence_control_index: usize) -> (defaults: Vec<(usize, String)>)
        ensures
            defaults@.len() == 1,
            defaults@[0].0 == sequence_control_index,
            defaults@[0].1@ == default_sequence(),
    {
        let mut defaults: Vec<(usize, String)> = Vec::new();
        defaults.push((sequence_control_index, "[ 1.00000, 1.00000,-1.00000,-1.00000,]".to_owned()));
        defaults
    }

    pub fn get_base(&self) -> (base: &IntBoxBase)
        ensures
            *base == self.base,
    {
        &self.base
    }

    /// The number the box shows: the steps of the sequence.
    pub fn get_current_value(&self, value: &str) -> (steps: i32)
        requires
            value.spec_bytes().len() >= 2,
            steps_in(value.spec_bytes().len()) <= i32::MAX,
        ensures
            steps == steps_in(value.spec_bytes().len()),
    {
        parse_sequence_length(value) as i32
    }

    /// The sequence after the box was set to `new_length`: cut down to that
    /// many steps, or filled up with steps at zero.
    pub fn resize(value: &str, new_length: i32) -> (new_value: String)
        requires
            value.is_ascii(),
            value@.len() >= 2,
            new_length >= 1,
        ensures
            new_value@ == resized(value@, new_length as int),
    {
        broadcast use is_ascii_spec_bytes;

        let len: usize = value.as_bytes().len();
        assert(len == value@.len());
        let new_length: usize = new_length as usize;
        let current_length: usize = parse_sequence_length(value);
        if new_length < current_length {
            let mut new_value: String = value.substring_ascii(0, 1 + VALUE_LENGTH * new_length).to_owned();
            new_value.append("]");
            proof {
                reveal_strlit("]");
                assert("]"@ =~= seq![']']);
            }
            new_value
        } else if new_length > current_length {
            let mut new_value: String = value.substring_ascii(0, len - 1).to_owned();
            let ghost stem = new_value@;
            let mut i: usize = current_length;
            while i < new_length
                invariant
                    current_length <= i <= new_length,
                    new_value@ == stem + zero_cells((i - current_length) as nat),
                decreases new_length - i,
            {
                new_value.append(" 0.00000,");
                i += 1;
                assert(new_value@ =~= stem + zero_cells((i - current_length) as nat));
            }
            new_value.append("]");
            proof {
                reveal_strlit("]");
                assert("]"@ =~= seq![']']);
            }
            new_value
        } else {
            value.to_owned()
        }
    }
}

} // verus!
