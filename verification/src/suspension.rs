//! Suspension: is the executor paused for this message? Any one policy
//! that says so is enough.

use vstd::prelude::*;
use crate::context::{Properties, Severity, Snapshot, Trial, TrialNote, TrialObserver, Weight};

verus! {

/// A rule that decides whether the executor is suspended for a message.
pub trait CheckSuspension<O, I> {
    /// Whether one evaluation of this policy that is shown `before` may
    /// answer `suspended` and leave `after`. A policy that says nothing of
    /// itself may do anything.
    open spec fn suspension_outcome(
        &self,
        origin: O,
        max_weight: Weight,
        before: Snapshot<I>,
        after: Snapshot<I>,
        suspended: bool,
    ) -> bool {
        true
    }

    /// Returns `true` if execution is suspended. The parameters are those
    /// of an admission policy, so that the rule has the whole context.
    fn is_suspended(
        &self,
        origin: &O,
        instructions: &mut Vec<I>,
        max_weight: Weight,
        properties: &mut Properties,
    ) -> (suspended: bool)
        ensures
            self.suspension_outcome(
                *origin,
                max_weight,
                Snapshot::of(old(instructions)@, *old(properties)),
                Snapshot::of(final(instructions)@, *final(properties)),
                suspended,
            ),
    ;
}

/// What a suspension chain makes of one trial: a reported suspension ends
/// the run with a suspension; anything else ends nothing.
pub open spec fn suspension_decision(trial: bool) -> Option<bool> {
    if trial {
        Some(true)
    } else {
        None
    }
}

/// The answer that ends a suspension run after a policy answered `trial`,
/// or `None` if the run goes on with the next policy.
pub fn decide(trial: bool) -> (answer: Option<bool>)
    ensures
        answer == suspension_decision(trial),
{
    if trial {
        Some(true)
    } else {
        None
    }
}

/// The trials of one suspension run: the policies are tried in order, each
/// shown what the one before it left, and the run ends with the first that
/// reports a suspension or when none is left.
pub open spec fn suspension_run<O, I, P: CheckSuspension<O, I>>(
    policies: Seq<P>,
    origin: O,
    max_weight: Weight,
    start: Snapshot<I>,
    trace: Seq<Trial<I, bool>>,
) -> bool {
    &&& trace.len() <= policies.len()
    &&& forall|i: int|
        0 <= i < trace.len() ==> policies[i].suspension_outcome(
            origin,
            max_weight,
            #[trigger] Trial::seen_by(start, trace, i),
            trace[i].after,
            trace[i].verdict,
        )
    &&& forall|i: int| 0 <= i < trace.len() - 1 ==> !(#[trigger] trace[i]).verdict
    &&& trace.len() < policies.len() ==> trace.len() > 0 && trace.last().verdict
}

/// The answer of a suspension run: suspended if its last trial said so.
pub open spec fn suspension_verdict<I>(trace: Seq<Trial<I, bool>>) -> bool {
    trace.len() > 0 && trace.last().verdict
}

/// An ordered list of suspension policies, itself a suspension policy.
pub struct SuspensionChain<P> {
    pub policies: Vec<P>,
}

impl<P> SuspensionChain<P> {
    /// The chain that tries `policies` from the first to the last.
    pub fn new(policies: Vec<P>) -> (chain: Self)
        ensures
            chain.policies == policies,
    {
        SuspensionChain { policies }
    }
}

impl<O, I, P: CheckSuspension<O, I>> CheckSuspension<O, I> for SuspensionChain<P> {
    open spec fn suspension_outcome(
        &self,
        origin: O,
        max_weight: Weight,
        before: Snapshot<I>,
        after: Snapshot<I>,
        suspended: bool,
    ) -> bool {
        exists|trace: Seq<Trial<I, bool>>|
            {
                &&& #[trigger] suspension_run(self.policies@, origin, max_weight, before, trace)
                &&& suspended == suspension_verdict(trace)
                &&& after == Trial::left_by(before, trace)
            }
    }

    /// Tries the policies in order and reports a suspension with the first
    /// that does; reports none if no policy does. What the tried policies
    /// changed stays changed.
    fn is_suspended(
        &self,
        origin: &O,
        instructions: &mut Vec<I>,
        max_weight: Weight,
        properties: &mut Properties,
    ) -> (suspended: bool)
    {
        let mut nobody = ();
        self.is_suspended_observed(origin, instructions, max_weight, properties, &mut nobody)
    }
}

/// What an observer of a suspension run is told, trial by trial. Every
/// trial is of the lower severity.
pub open spec fn suspension_notes<O, I>(
    origin: O,
    trace: Seq<Trial<I, bool>>,
    max_weight: Weight,
) -> Seq<TrialNote<O, I, bool>> {
    Seq::new(
        trace.len(),
        |i: int| Trial::note_of(origin, trace, max_weight, Severity::Trace, i),
    )
}

impl<P> SuspensionChain<P> {
    /// Does what `is_suspended` does, and tells `observer` of each trial as
    /// it ends, in order.
    pub fn is_suspended_observed<O, I, W>(
        &self,
        origin: &O,
        instructions: &mut Vec<I>,
        max_weight: Weight,
        properties: &mut Properties,
        observer: &mut W,
    ) -> (suspended: bool) where
        P: CheckSuspension<O, I>,
        W: TrialObserver<O, I, bool>,
        ensures
            exists|trace: Seq<Trial<I, bool>>|
                {
                    &&& #[trigger] suspension_run(
                        self.policies@,
                        *origin,
                        max_weight,
                        Snapshot::of(old(instructions)@, *old(properties)),
                        trace,
                    )
                    &&& suspended == suspension_verdict(trace)
                    &&& Snapshot::of(final(instructions)@, *final(properties)) == Trial::left_by(
                        Snapshot::of(old(instructions)@, *old(properties)),
                        trace,
                    )
                    &&& TrialNote::noted_each(
                        *old(observer),
                        *final(observer),
                        suspension_notes(*origin, trace, max_weight),
                    )
                },
    {
        let ghost start = Snapshot::of(instructions@, *properties);
        let ghost mut trace: Seq<Trial<I, bool>> = Seq::empty();
        let ghost mut states: Seq<W> = seq![*observer];
        let mut i: usize = 0;
        while i < self.policies.len()
            invariant
                i <= self.policies.len(),
                trace.len() == i,
                start == Snapshot::of(old(instructions)@, *old(properties)),
                forall|j: int|
                    0 <= j < trace.len() ==> self.policies@[j].suspension_outcome(
                        *origin,
                        max_weight,
                        #[trigger] Trial::seen_by(start, trace, j),
                        trace[j].after,
                        trace[j].verdict,
                    ),
                forall|j: int| 0 <= j < trace.len() ==> !(#[trigger] trace[j]).verdict,
                Snapshot::of(instructions@, *properties) == Trial::left_by(start, trace),
                TrialNote::noted_along(
                    *old(observer),
                    *observer,
                    suspension_notes(*origin, trace, max_weight),
                    states,
                ),
            decreases self.policies.len() - i,
        {
            let trial = self.policies[i].is_suspended(origin, instructions, max_weight, properties);
            let ghost told = suspension_notes(*origin, trace, max_weight);
            observer.trial_ended(i, Severity::Trace, origin, instructions, max_weight, properties, trial);
            proof {
                let earlier = trace;
                trace = trace.push(Trial { verdict: trial, after: Snapshot::of(instructions@, *properties) });
                assert forall|j: int| 0 <= j < trace.len() implies self.policies@[j].suspension_outcome(
                    *origin,
                    max_weight,
                    #[trigger] Trial::seen_by(start, trace, j),
                    trace[j].after,
                    trace[j].verdict,
                ) by {
                    assert(Trial::seen_by(start, trace, j) == Trial::seen_by(start, earlier, j));
                }
                let notes = suspension_notes(*origin, trace, max_weight);
                let watched = states;
                states = states.push(*observer);
                assert forall|j: int| 0 <= j < notes.len() implies states[j + 1].noted(
                    &states[j],
                    #[trigger] notes[j],
                ) by {
                    if j < told.len() {
                        assert(notes[j] == told[j]);
                        assert(states[j + 1] == watched[j + 1]);
                    }
                }
            }
            if let Some(answer) = decide(trial) {
                assert(suspension_run(self.policies@, *origin, max_weight, start, trace));
                assert(TrialNote::noted_along(
                    *old(observer),
                    *observer,
                    suspension_notes(*origin, trace, max_weight),
                    states,
                ));
                assert(trace.last().verdict);
                assert(Trial::left_by(start, trace) == Snapshot::of(instructions@, *properties));
                return answer;
            }
            i += 1;
        }
        assert(suspension_run(self.policies@, *origin, max_weight, start, trace));
        false
    }
}

/// The chain of no policy: it reports no suspension and changes nothing.
impl<O, I> CheckSuspension<O, I> for () {
    open spec fn suspension_outcome(
        &self,
        origin: O,
        max_weight: Weight,
        before: Snapshot<I>,
        after: Snapshot<I>,
        suspended: bool,
    ) -> bool {
        after == before && !suspended
    }

    fn is_suspended(
        &self,
        origin: &O,
        instructions: &mut Vec<I>,
        max_weight: Weight,
        properties: &mut Properties,
    ) -> (suspended: bool)
    {
        false
    }
}

/// Two policies in a row, of whatever types; a pair may hold pairs, so a
/// chain of any length and mixture can be put together. A pair tells no
/// observer of its trials: a run that is to be watched takes a chain.
impl<O, I, A: CheckSuspension<O, I>, B: CheckSuspension<O, I>> CheckSuspension<O, I> for (A, B) {
    open spec fn suspension_outcome(
        &self,
        origin: O,
        max_weight: Weight,
        before: Snapshot<I>,
        after: Snapshot<I>,
        suspended: bool,
    ) -> bool {
        exists|first: bool, between: Snapshot<I>|
            {
                &&& #[trigger] self.0.suspension_outcome(origin, max_weight, before, between, first)
                &&& if first {
                    after == between && suspended
                } else {
                    self.1.suspension_outcome(origin, max_weight, between, after, suspended)
                }
            }
    }

    /// Reports a suspension if the first policy does; else answers what
    /// the second answers, shown what the first left.
    fn is_suspended(
        &self,
        origin: &O,
        instructions: &mut Vec<I>,
        max_weight: Weight,
        properties: &mut Properties,
    ) -> (suspended: bool)
    {
        let first = self.0.is_suspended(origin, instructions, max_weight, properties);
        if let Some(answer) = decide(first) {
            return answer;
        }
        self.1.is_suspended(origin, instructions, max_weight, properties)
    }
}

/// Whether `policy`, shown `before`, can only report a suspension.
pub open spec fn suspends_on<O, I, P: CheckSuspension<O, I>>(
    policy: P,
    origin: O,
    max_weight: Weight,
    before: Snapshot<I>,
) -> bool {
    forall|after: Snapshot<I>, suspended: bool|
        #[trigger] policy.suspension_outcome(origin, max_weight, before, after, suspended)
            ==> suspended
}

/// The first trial that reports a suspension halts the run: it is the last
/// trial, every trial before it reported none, the run reports a
/// suspension, and the caller finds what that policy left.
pub proof fn lemma_suspension_first_true_halts<O, I, P: CheckSuspension<O, I>>(
    policies: Seq<P>,
    origin: O,
    max_weight: Weight,
    start: Snapshot<I>,
    trace: Seq<Trial<I, bool>>,
    k: int,
)
    requires
        suspension_run(policies, origin, max_weight, start, trace),
        0 <= k < trace.len(),
        trace[k].verdict,
    ensures
        k == trace.len() - 1,
        forall|j: int| 0 <= j < k ==> !(#[trigger] trace[j]).verdict,
        suspension_verdict(trace),
        Trial::left_by(start, trace) == trace[k].after,
        policies[k].suspension_outcome(
            origin,
            max_weight,
            Trial::seen_by(start, trace, k),
            Trial::left_by(start, trace),
            true,
        ),
{
    let shown = Trial::seen_by(start, trace, k);
}

/// A run that reports no suspension has tried every policy once, and each
/// of them reported none.
pub proof fn lemma_suspension_false_when_all_false<O, I, P: CheckSuspension<O, I>>(
    policies: Seq<P>,
    origin: O,
    max_weight: Weight,
    start: Snapshot<I>,
    trace: Seq<Trial<I, bool>>,
)
    requires
        suspension_run(policies, origin, max_weight, start, trace),
    ensures
        !suspension_verdict(trace) <==> trace.len() == policies.len() && forall|j: int|
            0 <= j < trace.len() ==> !(#[trigger] trace[j]).verdict,
{
    if trace.len() > 0 && !suspension_verdict(trace) {
        assert(!trace[trace.len() - 1].verdict);
    }
}

/// If some policy of the chain reports a suspension whatever it is shown,
/// the chain reports one, and no policy after that one is tried.
pub proof fn lemma_suspension_if_one_always_does<O, I, P: CheckSuspension<O, I>>(
    policies: Seq<P>,
    origin: O,
    max_weight: Weight,
    start: Snapshot<I>,
    trace: Seq<Trial<I, bool>>,
    k: int,
)
    requires
        suspension_run(policies, origin, max_weight, start, trace),
        0 <= k < policies.len(),
        forall|shown: Snapshot<I>| suspends_on(policies[k], origin, max_weight, shown),
    ensures
        suspension_verdict(trace),
        0 < trace.len() <= k + 1,
{
    if trace.len() > k {
        let shown = Trial::seen_by(start, trace, k);
        assert(suspends_on(policies[k], origin, max_weight, shown));
        assert(trace[k].verdict);
    }
}

/// A chain without policies reports no suspension and changes nothing.
pub proof fn lemma_suspension_empty_is_false<O, I, P: CheckSuspension<O, I>>(
    chain: SuspensionChain<P>,
    origin: O,
    max_weight: Weight,
    before: Snapshot<I>,
    after: Snapshot<I>,
    suspended: bool,
)
    requires
        chain.policies@.len() == 0,
        chain.suspension_outcome(origin, max_weight, before, after, suspended),
    ensures
        !suspended,
        after == before,
{
}

/// Whether what `policy` answers and leaves is a function of what it is
/// shown.
pub open spec fn suspension_is_deterministic<O, I, P: CheckSuspension<O, I>>(
    policy: P,
    origin: O,
    max_weight: Weight,
) -> bool {
    forall|
        before: Snapshot<I>,
        after1: Snapshot<I>,
        verdict1: bool,
        after2: Snapshot<I>,
        verdict2: bool,
    |
        #[trigger] policy.suspension_outcome(origin, max_weight, before, after1, verdict1)
            && #[trigger] policy.suspension_outcome(origin, max_weight, before, after2, verdict2)
            ==> after1 == after2 && verdict1 == verdict2
}

/// Two runs of deterministic policies from the same values agree on their
/// first `n` trials.
proof fn lemma_suspension_runs_agree_on<O, I, P: CheckSuspension<O, I>>(
    policies: Seq<P>,
    origin: O,
    max_weight: Weight,
    start: Snapshot<I>,
    trace1: Seq<Trial<I, bool>>,
    trace2: Seq<Trial<I, bool>>,
    n: int,
)
    requires
        suspension_run(policies, origin, max_weight, start, trace1),
        suspension_run(policies, origin, max_weight, start, trace2),
        forall|i: int|
            0 <= i < policies.len() ==> suspension_is_deterministic(
                #[trigger] policies[i],
                origin,
                max_weight,
            ),
        0 <= n <= trace1.len(),
        n <= trace2.len(),
    ensures
        forall|j: int| 0 <= j < n ==> trace1[j] == trace2[j],
    decreases n,
{
    if n > 0 {
        lemma_suspension_runs_agree_on(policies, origin, max_weight, start, trace1, trace2, n - 1);
        let shown1 = Trial::seen_by(start, trace1, n - 1);
        let shown2 = Trial::seen_by(start, trace2, n - 1);
        if n > 1 {
            assert(trace1[n - 2] == trace2[n - 2]);
        }
        assert(shown1 == shown2);
        assert(suspension_is_deterministic(policies[n - 1], origin, max_weight));
        assert(policies[n - 1].suspension_outcome(
            origin,
            max_weight,
            shown1,
            trace1[n - 1].after,
            trace1[n - 1].verdict,
        ));
        assert(policies[n - 1].suspension_outcome(
            origin,
            max_weight,
            shown1,
            trace2[n - 1].after,
            trace2[n - 1].verdict,
        ));
    }
}

/// If what each policy does is a function of what it is shown, so is what
/// the chain does: from the same values every run tries the same policies
/// with the same outcomes, gives the same answer and leaves the same
/// behind.
pub proof fn lemma_suspension_chain_is_deterministic<O, I, P: CheckSuspension<O, I>>(
    policies: Seq<P>,
    origin: O,
    max_weight: Weight,
    start: Snapshot<I>,
    trace1: Seq<Trial<I, bool>>,
    trace2: Seq<Trial<I, bool>>,
)
    requires
        suspension_run(policies, origin, max_weight, start, trace1),
        suspension_run(policies, origin, max_weight, start, trace2),
        forall|i: int|
            0 <= i < policies.len() ==> suspension_is_deterministic(
                #[trigger] policies[i],
                origin,
                max_weight,
            ),
    ensures
        trace1 == trace2,
        suspension_verdict(trace1) == suspension_verdict(trace2),
        Trial::left_by(start, trace1) == Trial::left_by(start, trace2),
{
    let n = if trace1.len() <= trace2.len() {
        trace1.len() as int
    } else {
        trace2.len() as int
    };
    lemma_suspension_runs_agree_on(policies, origin, max_weight, start, trace1, trace2, n);
    if trace1.len() < trace2.len() {
        assert(trace1[n - 1] == trace2[n - 1]);
        assert(false);
    }
    if trace2.len() < trace1.len() {
        assert(trace1[n - 1] == trace2[n - 1]);
        assert(false);
    }
    assert(trace1 =~= trace2);
}

} // verus!
