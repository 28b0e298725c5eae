//! The values that flow through one evaluation of a chain.

use vstd::prelude::*;

verus! {

/// Identifier of a message: 32 bytes.
pub type XcmHash = [u8; 32];

/// An execution cost in two independent dimensions: computation time and
/// the size of the storage proof.
#[derive(Clone, Copy, PartialEq, Eq, Debug, Structural)]
pub struct Weight {
    pub ref_time: u64,
    pub proof_size: u64,
}

impl Weight {
    /// The weight that costs nothing in either dimension.
    pub fn zero() -> (w: Weight)
        ensures
            w.ref_time == 0,
            w.proof_size == 0,
    {
        Weight { ref_time: 0, proof_size: 0 }
    }

    /// The weight with the given cost in each dimension.
    pub fn from_parts(ref_time: u64, proof_size: u64) -> (w: Weight)
        ensures
            w.ref_time == ref_time,
            w.proof_size == proof_size,
    {
        Weight { ref_time, proof_size }
    }

    /// The sum of two weights, each dimension held at `u64::MAX` where the
    /// true sum would exceed it.
    pub open spec fn spec_saturating_add(self, rhs: Weight) -> Weight {
        Weight {
            ref_time: if self.ref_time + rhs.ref_time > u64::MAX {
                u64::MAX
            } else {
                (self.ref_time + rhs.ref_time) as u64
            },
            proof_size: if self.proof_size + rhs.proof_size > u64::MAX {
                u64::MAX
            } else {
                (self.proof_size + rhs.proof_size) as u64
            },
        }
    }

    /// Adds dimension by dimension, saturating at the numeric bound.
    pub fn saturating_add(self, rhs: Weight) -> (sum: Weight)
        ensures
            sum == self.spec_saturating_add(rhs),
    {
        let ref_time: u64 = if self.ref_time > u64::MAX - rhs.ref_time {
            u64::MAX
        } else {
            self.ref_time + rhs.ref_time
        };
        let proof_size: u64 = if self.proof_size > u64::MAX - rhs.proof_size {
            u64::MAX
        } else {
            self.proof_size + rhs.proof_size
        };
        Weight { ref_time, proof_size }
    }

    /// Whether `self` is within `limit` in both dimensions.
    pub open spec fn spec_all_lte(self, limit: Weight) -> bool {
        self.ref_time <= limit.ref_time && self.proof_size <= limit.proof_size
    }

    /// Compares dimension by dimension: true when neither exceeds `limit`.
    pub fn all_lte(self, limit: Weight) -> (within: bool)
        ensures
            within == self.spec_all_lte(limit),
    {
        self.ref_time <= limit.ref_time && self.proof_size <= limit.proof_size
    }
}

/// Why a message was not processed.
#[derive(Clone, Copy, PartialEq, Eq, Debug, Structural)]
pub enum ProcessMessageError {
    /// The message data format is unknown.
    BadFormat,
    /// The message data is damaged.
    Corrupt,
    /// No configured policy recognised the message.
    Unsupported,
    /// The message needs more weight than is available; it would need the
    /// given weight.
    Overweight(Weight),
    /// The queue should yield to others before this message is tried again.
    Yield,
    /// Processing would exceed the stack depth limit.
    StackLimitReached,
}

/// The decision context threaded through one evaluation. Any policy may
/// change either field, and the value a chain leaves behind is part of its
/// result.
#[derive(Clone, Copy, PartialEq, Eq, Debug)]
pub struct Properties {
    /// Weight the system has already decided the message may use, whatever
    /// the message holds: as a rule non-zero only because fees were paid.
    pub weight_credit: Weight,
    /// The identity of the message, where one is known.
    pub message_id: Option<XcmHash>,
}

impl Properties {
    /// A context with the given credit and no message identity yet.
    pub fn new(weight_credit: Weight) -> (p: Properties)
        ensures
            p.weight_credit == weight_credit,
            p.message_id is None,
    {
        Properties { weight_credit, message_id: None }
    }
}

/// What a policy can change: the instructions and the decision context, as
/// they stand at one moment of an evaluation.
pub struct Snapshot<I> {
    pub instructions: Seq<I>,
    pub properties: Properties,
}

/// One evaluation of one policy: what it answered and what it left behind.
pub struct Trial<I, V> {
    pub verdict: V,
    pub after: Snapshot<I>,
}

/// How much an observer should make of a trial.
#[derive(Clone, Copy, PartialEq, Eq, Debug, Structural)]
pub enum Severity {
    /// Routine: a trial of no consequence by itself.
    Trace,
    /// A policy has found a reason to block the message.
    Error,
}

/// The record of one trial, for whoever watches a chain at work. It holds
/// copies only: to make one changes nothing that a policy sees.
#[derive(Clone, Copy, PartialEq, Eq, Debug)]
pub struct TrialEvent<V> {
    /// The place in the chain of the policy that was tried.
    pub barrier: usize,
    pub severity: Severity,
    /// How many instructions the message held after the trial.
    pub instruction_count: usize,
    pub max_weight: Weight,
    /// The decision context after the trial.
    pub properties: Properties,
    /// What the policy answered.
    pub verdict: V,
}

/// One trial as an observer is told of it: which policy was tried, for
/// whose message, what the policy left and what it answered.
pub struct TrialNote<O, I, V> {
    pub barrier: usize,
    pub severity: Severity,
    pub origin: O,
    pub instructions: Seq<I>,
    pub max_weight: Weight,
    pub properties: Properties,
    pub verdict: V,
}

impl<O, I, V> TrialNote<O, I, V> {
    /// The record that a list keeps of the trial.
    pub open spec fn event(self) -> TrialEvent<V> {
        TrialEvent {
            barrier: self.barrier,
            severity: self.severity,
            instruction_count: self.instructions.len() as usize,
            max_weight: self.max_weight,
            properties: self.properties,
            verdict: self.verdict,
        }
    }
}

/// Whoever watches a chain at work. It is handed every trial as it ends,
/// and what the policy left by shared reference: it can change nothing
/// that a policy sees, and a chain's answer does not depend on it.
pub trait TrialObserver<O, I, V> {
    /// Whether an observer that was `before` may have become `self` by
    /// being told of one trial. An observer that says nothing of itself
    /// may do anything.
    open spec fn noted(&self, before: &Self, note: TrialNote<O, I, V>) -> bool {
        true
    }

    /// Takes note of one trial.
    ///
    /// - `barrier`: the place in the chain of the policy that was tried.
    /// - `severity`: how much to make of the trial.
    /// - `origin`: the sender of the message.
    /// - `instructions`: the message as the policy left it.
    /// - `max_weight`: the caller's estimate of the weight of execution.
    /// - `properties`: the decision context as the policy left it.
    /// - `verdict`: what the policy answered.
    fn trial_ended(
        &mut self,
        barrier: usize,
        severity: Severity,
        origin: &O,
        instructions: &Vec<I>,
        max_weight: Weight,
        properties: &Properties,
        verdict: V,
    )
        ensures
            final(self).noted(
                old(self),
                (TrialNote {
                    barrier,
                    severity,
                    origin: *origin,
                    instructions: instructions@,
                    max_weight,
                    properties: *properties,
                    verdict,
                }),
            ),
    ;
}

/// The observer that takes no note of anything.
impl<O, I, V> TrialObserver<O, I, V> for () {
    fn trial_ended(
        &mut self,
        barrier: usize,
        severity: Severity,
        origin: &O,
        instructions: &Vec<I>,
        max_weight: Weight,
        properties: &Properties,
        verdict: V,
    ) {
    }
}

/// The observer that keeps a record of each trial, in order.
impl<O, I, V> TrialObserver<O, I, V> for Vec<TrialEvent<V>> {
    open spec fn noted(&self, before: &Self, note: TrialNote<O, I, V>) -> bool {
        self@ == before@.push(note.event())
    }

    fn trial_ended(
        &mut self,
        barrier: usize,
        severity: Severity,
        origin: &O,
        instructions: &Vec<I>,
        max_weight: Weight,
        properties: &Properties,
        verdict: V,
    ) {
        self.push(
            TrialEvent {
                barrier,
                severity,
                instruction_count: instructions.len(),
                max_weight,
                properties: *properties,
                verdict,
            },
        );
    }
}

impl<O, I, V> TrialNote<O, I, V> {
    /// Whether `states` are what an observer went through, from `before`
    /// to `after`, while it was told of the given trials one after the
    /// other.
    pub open spec fn noted_along<W: TrialObserver<O, I, V>>(
        before: W,
        after: W,
        notes: Seq<TrialNote<O, I, V>>,
        states: Seq<W>,
    ) -> bool {
        &&& states.len() == notes.len() + 1
        &&& states[0] == before
        &&& states.last() == after
        &&& forall|i: int|
            0 <= i < notes.len() ==> states[i + 1].noted(&states[i], #[trigger] notes[i])
    }

    /// Whether an observer that was `before` may have become `after` by
    /// being told of the given trials, one after the other.
    pub open spec fn noted_each<W: TrialObserver<O, I, V>>(
        before: W,
        after: W,
        notes: Seq<TrialNote<O, I, V>>,
    ) -> bool {
        exists|states: Seq<W>| #[trigger] Self::noted_along(before, after, notes, states)
    }
}

/// What a list holds after it was told of the first `n` of the given
/// trials.
proof fn lemma_noted_by_list_so_far<O, I, V>(
    before: Vec<TrialEvent<V>>,
    after: Vec<TrialEvent<V>>,
    notes: Seq<TrialNote<O, I, V>>,
    states: Seq<Vec<TrialEvent<V>>>,
    n: int,
)
    requires
        TrialNote::noted_along(before, after, notes, states),
        0 <= n <= notes.len(),
    ensures
        states[n]@ == before@ + notes.map_values(|note: TrialNote<O, I, V>| note.event()).take(n),
    decreases n,
{
    let events = notes.map_values(|note: TrialNote<O, I, V>| note.event());
    if n > 0 {
        lemma_noted_by_list_so_far(before, after, notes, states, n - 1);
        let note = notes[n - 1];
        assert(states[n - 1 + 1].noted(&states[n - 1], note));
        assert(states[n]@ =~= before@ + events.take(n));
    } else {
        assert(states[0]@ =~= before@ + events.take(0));
    }
}

/// A list that was told of trials holds what it held before, and after
/// that the record of each of the trials, in order.
pub proof fn lemma_noted_by_list<O, I, V>(
    before: Vec<TrialEvent<V>>,
    after: Vec<TrialEvent<V>>,
    notes: Seq<TrialNote<O, I, V>>,
)
    requires
        TrialNote::noted_each(before, after, notes),
    ensures
        after@ == before@ + notes.map_values(|note: TrialNote<O, I, V>| note.event()),
{
    let events = notes.map_values(|note: TrialNote<O, I, V>| note.event());
    let states = choose|states: Seq<Vec<TrialEvent<V>>>|
        #[trigger] TrialNote::noted_along(before, after, notes, states);
    lemma_noted_by_list_so_far(before, after, notes, states, notes.len() as int);
    assert(events.take(notes.len() as int) =~= events);
}

impl<I> Snapshot<I> {
    /// The snapshot made of the given instructions and context.
    pub open spec fn of(instructions: Seq<I>, properties: Properties) -> Snapshot<I> {
        Snapshot { instructions, properties }
    }
}

impl<I, V> Trial<I, V> {
    /// What the policy at position `i` is shown: the caller's values for
    /// the first policy, and for every other what the policy before it
    /// left.
    pub open spec fn seen_by(start: Snapshot<I>, trace: Seq<Trial<I, V>>, i: int) -> Snapshot<I> {
        if i <= 0 {
            start
        } else {
            trace[i - 1].after
        }
    }

    /// What the caller finds once the recorded trials are over.
    pub open spec fn left_by(start: Snapshot<I>, trace: Seq<Trial<I, V>>) -> Snapshot<I> {
        Self::seen_by(start, trace, trace.len() as int)
    }

    /// What an observer is told of the trial at position `i` of the given
    /// trials.
    pub open spec fn note_of<O>(
        origin: O,
        trace: Seq<Trial<I, V>>,
        max_weight: Weight,
        severity: Severity,
        i: int,
    ) -> TrialNote<O, I, V> {
        TrialNote {
            barrier: i as usize,
            severity,
            origin,
            instructions: trace[i].after.instructions,
            max_weight,
            properties: trace[i].after.properties,
            verdict: trace[i].verdict,
        }
    }
}

} // verus!
