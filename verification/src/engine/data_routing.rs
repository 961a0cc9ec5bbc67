//! The two decoders a compilation leaves on the control plane: one gathers
//! the control values the program reads, the other hands each module its part
//! of the feedback data the program writes.

use crate::engine::parts::{ModuleGraph, ModuleView};
use crate::scalar::Scalar;
use vstd::prelude::*;

verus! {

/// The controls of a graph in the order their values are handed to the
/// program: module by module as they stand in the graph, and within a module
/// control by control. Each is named by its module's place and its own.
pub open spec fn control_refs(g: Seq<ModuleView>) -> Seq<(usize, usize)>
    decreases g.len(),
{
    if g.len() == 0 {
        Seq::empty()
    } else {
        control_refs(g.drop_last()) + Seq::new(
            g.last().controls.len(),
            |c: int| ((g.len() - 1) as usize, c as usize),
        )
    }
}

/// `a` names a control that comes before the one `b` names.
pub open spec fn comes_before(a: (usize, usize), b: (usize, usize)) -> bool {
    a.0 < b.0 || (a.0 == b.0 && a.1 < b.1)
}

/// `control` names a control of the graph.
pub open spec fn is_control(g: Seq<ModuleView>, control: (usize, usize)) -> bool {
    control.0 < g.len() && control.1 < g[control.0 as int].controls.len()
}

/// The enumeration names exactly the controls of the graph, each once, in
/// ascending order of module and control.
pub proof fn lemma_control_refs_exact(g: Seq<ModuleView>)
    requires
        g.len() <= usize::MAX,
        forall|m: int| 0 <= m < g.len() ==> (#[trigger] g[m]).controls.len() <= usize::MAX,
    ensures
        forall|i: int| 0 <= i < control_refs(g).len() ==> is_control(g, #[trigger] control_refs(g)[i]),
        forall|control: (usize, usize)| is_control(g, control) ==> #[trigger] control_refs(g).contains(control),
        forall|i: int, j: int|
            0 <= i < j < control_refs(g).len() ==> comes_before(
                #[trigger] control_refs(g)[i],
                #[trigger] control_refs(g)[j],
            ),
    decreases g.len(),
{
    if g.len() > 0 {
        let rest = g.drop_last();
        let last = (g.len() - 1) as usize;
        assert forall|m: int| 0 <= m < rest.len() implies (#[trigger] rest[m]).controls.len() <= usize::MAX by {
            assert(rest[m] == g[m]);
        }
        lemma_control_refs_exact(rest);
        let head = control_refs(rest);
        let tail = Seq::new(g.last().controls.len(), |c: int| (last, c as usize));
        let all = control_refs(g);
        assert(all == head + tail);
        assert forall|i: int| 0 <= i < all.len() implies is_control(g, #[trigger] all[i]) by {
            if i < head.len() {
                assert(all[i] == head[i]);
                assert(is_control(rest, head[i]));
                assert(rest[head[i].0 as int] == g[head[i].0 as int]);
            } else {
                assert(all[i] == tail[i - head.len()]);
            }
        }
        assert forall|control: (usize, usize)| is_control(g, control) implies #[trigger] all.contains(control) by {
            if control.0 < rest.len() {
                assert(rest[control.0 as int] == g[control.0 as int]);
                assert(is_control(rest, control));
                assert(head.contains(control));
                let i = choose|i: int| 0 <= i < head.len() && head[i] == control;
                assert(all[i] == control);
            } else {
                assert(tail[control.1 as int] == control);
                assert(all[head.len() + control.1] == control);
            }
        }
        assert forall|i: int, j: int| 0 <= i < j < all.len() implies comes_before(
            #[trigger] all[i],
            #[trigger] all[j],
        ) by {
            if j < head.len() {
                assert(all[i] == head[i] && all[j] == head[j]);
            } else if i < head.len() {
                assert(all[i] == head[i]);
                assert(is_control(rest, head[i]));
                assert(all[j] == tail[j - head.len()]);
            } else {
                assert(all[i] == tail[i - head.len()]);
                assert(all[j] == tail[j - head.len()]);
            }
        }
    }
}

/// Gathers the control values a compiled program reads.
#[derive(Debug)]
pub struct ControlDynDataCollector {
    pub controls: Vec<(usize, usize)>,
}

impl ControlDynDataCollector {
    /// The collector for a graph: it names the graph's controls in order.
    pub fn create(graph: &ModuleGraph) -> (collector: ControlDynDataCollector)
        ensures
            collector.controls@ == control_refs(graph@),
    {
        let mut controls: Vec<(usize, usize)> = Vec::new();
        let mut m: usize = 0;
        assert(graph@.subrange(0, 0) =~= Seq::<ModuleView>::empty());
        while m < graph.modules.len()
            invariant
                m <= graph.modules.len(),
                controls@ == control_refs(graph@.subrange(0, m as int)),
            decreases graph.modules.len() - m,
        {
            let ghost before = controls@;
            let ghost upto = graph@.subrange(0, m + 1);
            proof {
                assert(upto.drop_last() =~= graph@.subrange(0, m as int));
                assert(upto.last() == graph@[m as int]);
            }
            let count: usize = graph.modules[m].controls.len();
            let mut c: usize = 0;
            while c < count
                invariant
                    c <= count,
                    m < graph.modules.len(),
                    count == graph@[m as int].controls.len(),
                    controls@ == before + Seq::new(c as nat, |k: int| (m, k as usize)),
                decreases count - c,
            {
                controls.push((m, c));
                c += 1;
                assert(controls@ =~= before + Seq::new(c as nat, |k: int| (m, k as usize)));
            }
            assert(controls@ =~= control_refs(upto));
            m += 1;
        }
        assert(graph@.subrange(0, graph@.len() as int) =~= graph@);
        ControlDynDataCollector { controls }
    }

    /// Every control the collector names exists in the graph.
    pub open spec fn reads_from(&self, g: Seq<ModuleView>) -> bool {
        forall|i: int| 0 <= i < self.controls@.len() ==> is_control(g, #[trigger] self.controls@[i])
    }

    /// The current values of the controls the collector names, in its order.
    /// `None` when the collector names a control that the graph does not
    /// have, as happens when the graph changed after the compilation.
    pub fn collect_data(&self, graph: &ModuleGraph) -> (data: Option<Vec<Scalar>>)
        ensures
            data.is_some() <==> self.reads_from(graph@),
            match data {
                Some(values) => {
                    &&& values@.len() == self.controls@.len()
                    &&& forall|i: int|
                        0 <= i < values@.len() ==> values@[i] == graph@[self.controls@[i].0 as int].controls[self.controls@[i].1 as int].value
                },
                None => true,
            },
    {
        let mut values: Vec<Scalar> = Vec::new();
        let mut i: usize = 0;
        while i < self.controls.len()
            invariant
                i <= self.controls.len(),
                values@.len() == i,
                forall|j: int| 0 <= j < i ==> is_control(graph@, #[trigger] self.controls@[j]),
                forall|j: int|
                    0 <= j < i ==> values@[j] == graph@[self.controls@[j].0 as int].controls[self.controls@[j].1 as int].value,
            decreases self.controls.len() - i,
        {
            let (m, c) = self.controls[i];
            if m >= graph.modules.len() {
                assert(!is_control(graph@, self.controls@[i as int]));
                return None;
            }
            if c >= graph.modules[m].controls.len() {
                assert(!is_control(graph@, self.controls@[i as int]));
                return None;
            }
            values.push(graph.modules[m].controls[c].value);
            i += 1;
        }
        Some(values)
    }
}

/// Length of the feedback data of all the modules of a graph together.
pub open spec fn feedback_total(g: Seq<ModuleView>) -> nat
    decreases g.len(),
{
    if g.len() == 0 {
        0
    } else {
        feedback_total(g.drop_last()) + g.last().template.feedback_data_len as nat
    }
}

/// A length, or the largest the machine can hold if it is larger.
pub open spec fn clipped(n: nat) -> usize {
    if n > usize::MAX {
        usize::MAX
    } else {
        n as usize
    }
}

/// For each module of a graph, where its feedback data starts in the
/// program's feedback buffer and how long it is.
pub open spec fn feedback_segments(g: Seq<ModuleView>) -> Seq<(usize, usize)> {
    Seq::new(
        g.len(),
        |m: int| (clipped(feedback_total(g.subrange(0, m))), g[m].template.feedback_data_len),
    )
}

/// Hands each module its part of the feedback data a program writes.
#[derive(Debug)]
pub struct FeedbackDisplayer {
    pub segments: Vec<(usize, usize)>,
}

impl FeedbackDisplayer {
    /// The displayer for a graph, and the length of the feedback buffer it
    /// reads from.
    pub fn create(graph: &ModuleGraph) -> (made: (FeedbackDisplayer, usize))
        ensures
            made.0.segments@ == feedback_segments(graph@),
            made.1 == clipped(feedback_total(graph@)),
    {
        let mut segments: Vec<(usize, usize)> = Vec::new();
        let mut offset: usize = 0;
        let mut m: usize = 0;
        assert(graph@.subrange(0, 0) =~= Seq::<ModuleView>::empty());
        while m < graph.modules.len()
            invariant
                m <= graph.modules.len(),
                offset == clipped(feedback_total(graph@.subrange(0, m as int))),
                segments@.len() == m,
                forall|j: int| 0 <= j < m ==> segments@[j] == feedback_segments(graph@)[j],
            decreases graph.modules.len() - m,
        {
            let len: usize = graph.modules[m].template.feedback_data_len;
            proof {
                let upto = graph@.subrange(0, m + 1);
                assert(upto.drop_last() =~= graph@.subrange(0, m as int));
                assert(upto.last() == graph@[m as int]);
            }
            segments.push((offset, len));
            offset = offset.saturating_add(len);
            m += 1;
        }
        assert(graph@.subrange(0, graph@.len() as int) =~= graph@);
        assert(segments@ =~= feedback_segments(graph@));
        (FeedbackDisplayer { segments }, offset)
    }

    /// The part of `data` that belongs to the module at `module`, if the
    /// displayer knows the module and the part lies within `data`.
    pub fn display_feedback(&self, data: &Vec<Scalar>, module: usize) -> (part: Option<Vec<Scalar>>)
        ensures
            match part {
                Some(values) => {
                    &&& module < self.segments@.len()
                    &&& self.segments@[module as int].0 + self.segments@[module as int].1 <= data@.len()
                    &&& values@ == data@.subrange(
                        self.segments@[module as int].0 as int,
                        self.segments@[module as int].0 + self.segments@[module as int].1,
                    )
                },
                None => module >= self.segments@.len() || self.segments@[module as int].0
                    + self.segments@[module as int].1 > data@.len(),
            },
    {
        if module >= self.segments.len() {
            return None;
        }
        let (start, len) = self.segments[module];
        if start > data.len() || len > data.len() - start {
            return None;
        }
        let mut values: Vec<Scalar> = Vec::new();
        let mut i: usize = 0;
        while i < len
            invariant
                i <= len,
                start + len <= data.len(),
                values@ == data@.subrange(start as int, start + i),
            decreases len - i,
        {
            values.push(data[start + i]);
            i += 1;
            assert(values@ =~= data@.subrange(start as int, start + i));
        }
        Some(values)
    }
}

} // verus!
