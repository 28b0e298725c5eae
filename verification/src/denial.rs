//! Denial: is there a reason to block this message? Any one policy that
//! denies is enough, and its reason is the chain's.

use vstd::prelude::*;
use crate::context::{
    ProcessMessageError, Properties, Severity, Snapshot, Trial, TrialNote, TrialObserver, Weight,
};

verus! {

/// A rule that decides whether a message must not be executed.
pub trait DenyExecution<O, I> {
    /// Whether one evaluation of this policy that is shown `before` may
    /// answer `verdict` and leave `after`. A policy that says nothing of
    /// itself may do anything.
    open spec fn denial_outcome(
        &self,
        origin: O,
        max_weight: Weight,
        before: Snapshot<I>,
        after: Snapshot<I>,
        verdict: Result<(), ProcessMessageError>,
    ) -> bool {
        true
    }

    /// Returns `Ok(())` if there is no reason to deny execution, and the
    /// reason if there is one.
    ///
    /// - `origin`: the sender of the message.
    /// - `instructions`: the message itself, which the policy may rewrite.
    /// - `max_weight`: the caller's estimate of the weight of execution.
    /// - `properties`: the decision context, which the policy may change.
    fn deny_execution(
        &self,
        origin: &O,
        instructions: &mut Vec<I>,
        max_weight: Weight,
        properties: &mut Properties,
    ) -> (verdict: Result<(), ProcessMessageError>)
        ensures
            self.denial_outcome(
                *origin,
                max_weight,
                Snapshot::of(old(instructions)@, *old(properties)),
                Snapshot::of(final(instructions)@, *final(properties)),
                verdict,
            ),
    ;
}

/// What a denial chain makes of one trial: a denial ends the run with the
/// policy's own reason; an acceptance ends nothing.
pub open spec fn denial_decision(
    trial: Result<(), ProcessMessageError>,
) -> Option<Result<(), ProcessMessageError>> {
    if trial is Err {
        Some(trial)
    } else {
        None
    }
}

/// The answer that ends a denial run after a policy answered `trial`, or
/// `None` if the run goes on with the next policy.
pub fn decide(trial: Result<(), ProcessMessageError>) -> (answer: Option<
    Result<(), ProcessMessageError>,
>)
    ensures
        answer == denial_decision(trial),
{
    match trial {
        Err(reason) => Some(Err(reason)),
        Ok(()) => None,
    }
}

/// The trials of one denial run: the policies are tried in order, each
/// shown what the one before it left, and the run ends with the first that
/// denies or when none is left.
pub open spec fn denial_run<O, I, P: DenyExecution<O, I>>(
    policies: Seq<P>,
    origin: O,
    max_weight: Weight,
    start: Snapshot<I>,
    trace: Seq<Trial<I, Result<(), ProcessMessageError>>>,
) -> bool {
    &&& trace.len() <= policies.len()
    &&& forall|i: int|
        0 <= i < trace.len() ==> policies[i].denial_outcome(
            origin,
            max_weight,
            #[trigger] Trial::seen_by(start, trace, i),
            trace[i].after,
            trace[i].verdict,
        )
    &&& forall|i: int| 0 <= i < trace.len() - 1 ==> (#[trigger] trace[i]).verdict is Ok
    &&& trace.len() < policies.len() ==> trace.len() > 0 && trace.last().verdict is Err
}

/// The answer of a denial run: the reason of its last trial if that one
/// denied, unchanged, else acceptance.
pub open spec fn denial_verdict<I>(
    trace: Seq<Trial<I, Result<(), ProcessMessageError>>>,
) -> Result<(), ProcessMessageError> {
    if trace.len() > 0 && trace.last().verdict is Err {
        trace.last().verdict
    } else {
        Ok(())
    }
}

/// An ordered list of denial policies, itself a denial policy.
pub struct DenialChain<P> {
    pub policies: Vec<P>,
}

impl<P> DenialChain<P> {
    /// The chain that tries `policies` from the first to the last.
    pub fn new(policies: Vec<P>) -> (chain: Self)
        ensures
            chain.policies == policies,
    {
        DenialChain { policies }
    }
}

impl<O, I, P: DenyExecution<O, I>> DenyExecution<O, I> for DenialChain<P> {
    open spec fn denial_outcome(
        &self,
        origin: O,
        max_weight: Weight,
        before: Snapshot<I>,
        after: Snapshot<I>,
        verdict: Result<(), ProcessMessageError>,
    ) -> bool {
        exists|trace: Seq<Trial<I, Result<(), ProcessMessageError>>>|
            {
                &&& #[trigger] denial_run(self.policies@, origin, max_weight, before, trace)
                &&& verdict == denial_verdict(trace)
                &&& after == Trial::left_by(before, trace)
            }
    }

    /// Tries the policies in order and stops at the first that denies,
    /// handing its reason on as it is. Accepts if none denies. What the
    /// tried policies changed stays changed.
    fn deny_execution(
        &self,
        origin: &O,
        instructions: &mut Vec<I>,
        max_weight: Weight,
        properties: &mut Properties,
    ) -> (verdict: Result<(), ProcessMessageError>)
    {
        let mut nobody = ();
        self.deny_execution_observed(origin, instructions, max_weight, properties, &mut nobody)
    }
}

/// How much to make of a denial policy's answer: a denial is an event of
/// consequence, an acceptance is routine.
pub open spec fn denial_severity(verdict: Result<(), ProcessMessageError>) -> Severity {
    if verdict is Err {
        Severity::Error
    } else {
        Severity::Trace
    }
}

/// What an observer of a denial run is told, trial by trial.
pub open spec fn denial_notes<O, I>(
    origin: O,
    trace: Seq<Trial<I, Result<(), ProcessMessageError>>>,
    max_weight: Weight,
) -> Seq<TrialNote<O, I, Result<(), ProcessMessageError>>> {
    Seq::new(
        trace.len(),
        |i: int| Trial::note_of(origin, trace, max_weight, denial_severity(trace[i].verdict), i),
    )
}

impl<P> DenialChain<P> {
    /// Does what `deny_execution` does, and tells `observer` of each trial as
    /// it ends, in order.
    pub fn deny_execution_observed<O, I, W>(
        &self,
        origin: &O,
        instructions: &mut Vec<I>,
        max_weight: Weight,
        properties: &mut Properties,
        observer: &mut W,
    ) -> (verdict: Result<(), ProcessMessageError>) where
        P: DenyExecution<O, I>,
        W: TrialObserver<O, I, Result<(), ProcessMessageError>>,
        ensures
            exists|trace: Seq<Trial<I, Result<(), ProcessMessageError>>>|
                {
                    &&& #[trigger] denial_run(
                        self.policies@,
                        *origin,
                        max_weight,
                        Snapshot::of(old(instructions)@, *old(properties)),
                        trace,
                    )
                    &&& verdict == denial_verdict(trace)
                    &&& Snapshot::of(final(instructions)@, *final(properties)) == Trial::left_by(
                        Snapshot::of(old(instructions)@, *old(properties)),
                        trace,
                    )
                    &&& TrialNote::noted_each(
                        *old(observer),
                        *final(observer),
                        denial_notes(*origin, trace, max_weight),
                    )
                },
    {
        let ghost start = Snapshot::of(instructions@, *properties);
        let ghost mut trace: Seq<Trial<I, Result<(), ProcessMessageError>>> = Seq::empty();
        let ghost mut states: Seq<W> = seq![*observer];
        let mut i: usize = 0;
        while i < self.policies.len()
            invariant
                i <= self.policies.len(),
                trace.len() == i,
                start == Snapshot::of(old(instructions)@, *old(properties)),
                forall|j: int|
                    0 <= j < trace.len() ==> self.policies@[j].denial_outcome(
                        *origin,
                        max_weight,
                        #[trigger] Trial::seen_by(start, trace, j),
                        trace[j].after,
                        trace[j].verdict,
                    ),
                forall|j: int| 0 <= j < trace.len() ==> (#[trigger] trace[j]).verdict is Ok,
                Snapshot::of(instructions@, *properties) == Trial::left_by(start, trace),
                TrialNote::noted_along(
                    *old(observer),
                    *observer,
                    denial_notes(*origin, trace, max_weight),
                    states,
                ),
            decreases self.policies.len() - i,
        {
            let trial = self.policies[i].deny_execution(origin, instructions, max_weight, properties);
            let severity = match trial {
                Err(_) => Severity::Error,
                Ok(()) => Severity::Trace,
            };
            let ghost told = denial_notes(*origin, trace, max_weight);
            observer.trial_ended(i, severity, origin, instructions, max_weight, properties, trial);
            proof {
                let earlier = trace;
                trace = trace.push(Trial { verdict: trial, after: Snapshot::of(instructions@, *properties) });
                assert forall|j: int| 0 <= j < trace.len() implies self.policies@[j].denial_outcome(
                    *origin,
                    max_weight,
                    #[trigger] Trial::seen_by(start, trace, j),
                    trace[j].after,
                    trace[j].verdict,
                ) by {
                    assert(Trial::seen_by(start, trace, j) == Trial::seen_by(start, earlier, j));
                }
                let notes = denial_notes(*origin, trace, max_weight);
                let watched = states;
                states = states.push(*observer);
                assert forall|j: int| 0 <= j < notes.len() implies states[j + 1].noted(
                    &states[j],
                    #[trigger] notes[j],
                ) by {
                    if j < told.len() {
                        assert(notes[j] == told[j]);
                        assert(states[j + 1] == watched[j + 1]);
                    }
                }
            }
            if let Some(answer) = decide(trial) {
                assert(denial_run(self.policies@, *origin, max_weight, start, trace));
                assert(TrialNote::noted_along(
                    *old(observer),
                    *observer,
                    denial_notes(*origin, trace, max_weight),
                    states,
                ));
                assert(trace.last().verdict == trial);
                assert(Trial::left_by(start, trace) == Snapshot::of(instructions@, *properties));
                return answer;
            }
            i += 1;
        }
        assert(denial_run(self.policies@, *origin, max_weight, start, trace));
        Ok(())
    }
}

/// The chain of no policy: it accepts and changes nothing.
impl<O, I> DenyExecution<O, I> for () {
    open spec fn denial_outcome(
        &self,
        origin: O,
        max_weight: Weight,
        before: Snapshot<I>,
        after: Snapshot<I>,
        verdict: Result<(), ProcessMessageError>,
    ) -> bool {
        after == before && verdict == Ok::<(), ProcessMessageError>(())
    }

    fn deny_execution(
        &self,
        origin: &O,
        instructions: &mut Vec<I>,
        max_weight: Weight,
        properties: &mut Properties,
    ) -> (verdict: Result<(), ProcessMessageError>)
    {
        Ok(())
    }
}

/// Two policies in a row, of whatever types; a pair may hold pairs, so a
/// chain of any length and mixture can be put together. A pair tells no
/// observer of its trials: a run that is to be watched takes a chain.
impl<O, I, A: DenyExecution<O, I>, B: DenyExecution<O, I>> DenyExecution<O, I> for (A, B) {
    open spec fn denial_outcome(
        &self,
        origin: O,
        max_weight: Weight,
        before: Snapshot<I>,
        after: Snapshot<I>,
        verdict: Result<(), ProcessMessageError>,
    ) -> bool {
        exists|first: Result<(), ProcessMessageError>, between: Snapshot<I>|
            {
                &&& #[trigger] self.0.denial_outcome(origin, max_weight, before, between, first)
                &&& if first is Err {
                    after == between && verdict == first
                } else {
                    self.1.denial_outcome(origin, max_weight, between, after, verdict)
                }
            }
    }

    /// Denies with the first policy's reason if it has one; else answers
    /// what the second answers, shown what the first left.
    fn deny_execution(
        &self,
        origin: &O,
        instructions: &mut Vec<I>,
        max_weight: Weight,
        properties: &mut Properties,
    ) -> (verdict: Result<(), ProcessMessageError>)
    {
        let first = self.0.deny_execution(origin, instructions, max_weight, properties);
        if let Some(answer) = decide(first) {
            return answer;
        }
        self.1.deny_execution(origin, instructions, max_weight, properties)
    }
}

/// Whether `policy`, shown `before`, can only deny.
pub open spec fn denies_on<O, I, P: DenyExecution<O, I>>(
    policy: P,
    origin: O,
    max_weight: Weight,
    before: Snapshot<I>,
) -> bool {
    forall|after: Snapshot<I>, verdict: Result<(), ProcessMessageError>|
        #[trigger] policy.denial_outcome(origin, max_weight, before, after, verdict)
            ==> verdict is Err
}

/// The first trial that denies decides the run: its reason is the answer,
/// unchanged; it is the last trial, so no policy after it was tried; every
/// trial before it accepted; and the caller finds what the denying policy
/// left.
pub proof fn lemma_denial_first_reason_wins<O, I, P: DenyExecution<O, I>>(
    policies: Seq<P>,
    origin: O,
    max_weight: Weight,
    start: Snapshot<I>,
    trace: Seq<Trial<I, Result<(), ProcessMessageError>>>,
    k: int,
)
    requires
        denial_run(policies, origin, max_weight, start, trace),
        0 <= k < trace.len(),
        trace[k].verdict is Err,
    ensures
        k == trace.len() - 1,
        forall|j: int| 0 <= j < k ==> (#[trigger] trace[j]).verdict is Ok,
        denial_verdict(trace) == trace[k].verdict,
        Trial::left_by(start, trace) == trace[k].after,
        policies[k].denial_outcome(
            origin,
            max_weight,
            Trial::seen_by(start, trace, k),
            Trial::left_by(start, trace),
            denial_verdict(trace),
        ),
{
    let shown = Trial::seen_by(start, trace, k);
}

/// A run that accepts has tried every policy once, and each of them
/// accepted.
pub proof fn lemma_denial_accepts_when_all_accept<O, I, P: DenyExecution<O, I>>(
    policies: Seq<P>,
    origin: O,
    max_weight: Weight,
    start: Snapshot<I>,
    trace: Seq<Trial<I, Result<(), ProcessMessageError>>>,
)
    requires
        denial_run(policies, origin, max_weight, start, trace),
    ensures
        denial_verdict(trace) is Ok <==> trace.len() == policies.len() && forall|j: int|
            0 <= j < trace.len() ==> (#[trigger] trace[j]).verdict is Ok,
{
    if trace.len() > 0 && denial_verdict(trace) is Ok {
        assert(trace[trace.len() - 1].verdict is Ok);
    }
}

/// If some policy of the chain denies whatever it is shown, the chain
/// denies, and no policy after that one is tried.
pub proof fn lemma_denial_denies_if_one_always_does<O, I, P: DenyExecution<O, I>>(
    policies: Seq<P>,
    origin: O,
    max_weight: Weight,
    start: Snapshot<I>,
    trace: Seq<Trial<I, Result<(), ProcessMessageError>>>,
    k: int,
)
    requires
        denial_run(policies, origin, max_weight, start, trace),
        0 <= k < policies.len(),
        forall|shown: Snapshot<I>| denies_on(policies[k], origin, max_weight, shown),
    ensures
        denial_verdict(trace) is Err,
        0 < trace.len() <= k + 1,
{
    if trace.len() > k {
        let shown = Trial::seen_by(start, trace, k);
        assert(denies_on(policies[k], origin, max_weight, shown));
        assert(trace[k].verdict is Err);
    }
}

/// A chain without policies accepts and changes nothing.
pub proof fn lemma_denial_empty_accepts<O, I, P: DenyExecution<O, I>>(
    chain: DenialChain<P>,
    origin: O,
    max_weight: Weight,
    before: Snapshot<I>,
    after: Snapshot<I>,
    verdict: Result<(), ProcessMessageError>,
)
    requires
        chain.policies@.len() == 0,
        chain.denial_outcome(origin, max_weight, before, after, verdict),
    ensures
        verdict == Ok::<(), ProcessMessageError>(()),
        after == before,
{
}

/// Whether what `policy` answers and leaves is a function of what it is
/// shown.
pub open spec fn denial_is_deterministic<O, I, P: DenyExecution<O, I>>(
    policy: P,
    origin: O,
    max_weight: Weight,
) -> bool {
    forall|
        before: Snapshot<I>,
        after1: Snapshot<I>,
        verdict1: Result<(), ProcessMessageError>,
        after2: Snapshot<I>,
        verdict2: Result<(), ProcessMessageError>,
    |
        #[trigger] policy.denial_outcome(origin, max_weight, before, after1, verdict1)
            && #[trigger] policy.denial_outcome(origin, max_weight, before, after2, verdict2)
            ==> after1 == after2 && verdict1 == verdict2
}

/// Two runs of deterministic policies from the same values agree on their
/// first `n` trials.
proof fn lemma_denial_runs_agree_on<O, I, P: DenyExecution<O, I>>(
    policies: Seq<P>,
    origin: O,
    max_weight: Weight,
    start: Snapshot<I>,
    trace1: Seq<Trial<I, Result<(), ProcessMessageError>>>,
    trace2: Seq<Trial<I, Result<(), ProcessMessageError>>>,
    n: int,
)
    requires
        denial_run(policies, origin, max_weight, start, trace1),
        denial_run(policies, origin, max_weight, start, trace2),
        forall|i: int|
            0 <= i < policies.len() ==> denial_is_deterministic(
                #[trigger] policies[i],
                origin,
                max_weight,
            ),
        0 <= n <= trace1.len(),
        n <= trace2.len(),
    ensures
        forall|j: int| 0 <= j < n ==> trace1[j] == trace2[j],
    decreases n,
{
    if n > 0 {
        lemma_denial_runs_agree_on(policies, origin, max_weight, start, trace1, trace2, n - 1);
        let shown1 = Trial::seen_by(start, trace1, n - 1);
        let shown2 = Trial::seen_by(start, trace2, n - 1);
        if n > 1 {
            assert(trace1[n - 2] == trace2[n - 2]);
        }
        assert(shown1 == shown2);
        assert(denial_is_deterministic(policies[n - 1], origin, max_weight));
        assert(policies[n - 1].denial_outcome(
            origin,
            max_weight,
            shown1,
            trace1[n - 1].after,
            trace1[n - 1].verdict,
        ));
        assert(policies[n - 1].denial_outcome(
            origin,
            max_weight,
            shown1,
            trace2[n - 1].after,
            trace2[n - 1].verdict,
        ));
    }
}

/// If what each policy does is a function of what it is shown, so is what
/// the chain does: from the same values every run tries the same policies
/// with the same outcomes, gives the same answer and leaves the same
/// behind.
pub proof fn lemma_denial_chain_is_deterministic<O, I, P: DenyExecution<O, I>>(
    policies: Seq<P>,
    origin: O,
    max_weight: Weight,
    start: Snapshot<I>,
    trace1: Seq<Trial<I, Result<(), ProcessMessageError>>>,
    trace2: Seq<Trial<I, Result<(), ProcessMessageError>>>,
)
    requires
        denial_run(policies, origin, max_weight, start, trace1),
        denial_run(policies, origin, max_weight, start, trace2),
        forall|i: int|
            0 <= i < policies.len() ==> denial_is_deterministic(
                #[trigger] policies[i],
                origin,
                max_weight,
            ),
    ensures
        trace1 == trace2,
        denial_verdict(trace1) == denial_verdict(trace2),
        Trial::left_by(start, trace1) == Trial::left_by(start, trace2),
{
    let n = if trace1.len() <= trace2.len() {
        trace1.len() as int
    } else {
        trace2.len() as int
    };
    lemma_denial_runs_agree_on(policies, origin, max_weight, start, trace1, trace2, n);
    if trace1.len() < trace2.len() {
        assert(trace1[n - 1] == trace2[n - 1]);
        assert(false);
    }
    if trace2.len() < trace1.len() {
        assert(trace1[n - 1] == trace2[n - 1]);
        assert(false);
    }
    assert(trace1 =~= trace2);
}

} // verus!
