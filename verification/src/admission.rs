//! Admission: may this message run? Any one policy that accepts is enough.

use vstd::prelude::*;
use crate::context::{
    ProcessMessageError, Properties, Severity, Snapshot, Trial, TrialNote, TrialObserver, Weight,
};

verus! {

/// A rule that decides whether a message may be executed.
pub trait ShouldExecute<O, I> {
    /// Whether one evaluation of this policy that is shown `before` may
    /// answer `verdict` and leave `after`. A policy that says nothing of
    /// itself may do anything.
    open spec fn execute_outcome(
        &self,
        origin: O,
        max_weight: Weight,
        before: Snapshot<I>,
        after: Snapshot<I>,
        verdict: Result<(), ProcessMessageError>,
    ) -> bool {
        true
    }

    /// Returns `Ok(())` if the message may be executed.
    ///
    /// - `origin`: the sender of the message.
    /// - `instructions`: the message itself, which the policy may rewrite.
    /// - `max_weight`: the caller's estimate of the weight of execution.
    /// - `properties`: the decision context, which the policy may change.
    fn should_execute(
        &self,
        origin: &O,
        instructions: &mut Vec<I>,
        max_weight: Weight,
        properties: &mut Properties,
    ) -> (verdict: Result<(), ProcessMessageError>)
        ensures
            self.execute_outcome(
                *origin,
                max_weight,
                Snapshot::of(old(instructions)@, *old(properties)),
                Snapshot::of(final(instructions)@, *final(properties)),
                verdict,
            ),
    ;
}

/// What an admission chain makes of one trial: acceptance ends the run
/// with acceptance; a rejection ends nothing, and its reason is dropped.
pub open spec fn admission_decision(
    trial: Result<(), ProcessMessageError>,
) -> Option<Result<(), ProcessMessageError>> {
    if trial is Ok {
        Some(Ok(()))
    } else {
        None
    }
}

/// The answer that ends an admission run after a policy answered `trial`,
/// or `None` if the run goes on with the next policy.
pub fn decide(trial: Result<(), ProcessMessageError>) -> (answer: Option<
    Result<(), ProcessMessageError>,
>)
    ensures
        answer == admission_decision(trial),
{
    match trial {
        Ok(()) => Some(Ok(())),
        Err(_) => None,
    }
}

/// The trials of one admission run: the policies are tried in order, each
/// shown what the one before it left, and the run ends with the first that
/// accepts or when none is left.
pub open spec fn admission_run<O, I, P: ShouldExecute<O, I>>(
    policies: Seq<P>,
    origin: O,
    max_weight: Weight,
    start: Snapshot<I>,
    trace: Seq<Trial<I, Result<(), ProcessMessageError>>>,
) -> bool {
    &&& trace.len() <= policies.len()
    &&& forall|i: int|
        0 <= i < trace.len() ==> policies[i].execute_outcome(
            origin,
            max_weight,
            #[trigger] Trial::seen_by(start, trace, i),
            trace[i].after,
            trace[i].verdict,
        )
    &&& forall|i: int| 0 <= i < trace.len() - 1 ==> (#[trigger] trace[i]).verdict is Err
    &&& trace.len() < policies.len() ==> trace.len() > 0 && trace.last().verdict is Ok
}

/// The answer of an admission run: acceptance if its last trial accepted,
/// else the generic failure, whatever the policies gave as their reasons.
pub open spec fn admission_verdict<I>(
    trace: Seq<Trial<I, Result<(), ProcessMessageError>>>,
) -> Result<(), ProcessMessageError> {
    if trace.len() > 0 && trace.last().verdict is Ok {
        Ok(())
    } else {
        Err(ProcessMessageError::Unsupported)
    }
}

/// An ordered list of admission policies, itself an admission policy.
pub struct AdmissionChain<P> {
    pub policies: Vec<P>,
}

impl<P> AdmissionChain<P> {
    /// The chain that tries `policies` from the first to the last.
    pub fn new(policies: Vec<P>) -> (chain: Self)
        ensures
            chain.policies == policies,
    {
        AdmissionChain { policies }
    }
}

impl<O, I, P: ShouldExecute<O, I>> ShouldExecute<O, I> for AdmissionChain<P> {
    open spec fn execute_outcome(
        &self,
        origin: O,
        max_weight: Weight,
        before: Snapshot<I>,
        after: Snapshot<I>,
        verdict: Result<(), ProcessMessageError>,
    ) -> bool {
        exists|trace: Seq<Trial<I, Result<(), ProcessMessageError>>>|
            {
                &&& #[trigger] admission_run(self.policies@, origin, max_weight, before, trace)
                &&& verdict == admission_verdict(trace)
                &&& after == Trial::left_by(before, trace)
            }
    }

    /// Tries the policies in order and accepts with the first that does.
    /// Rejections are dropped: if no policy accepts, the chain rejects
    /// with `Unsupported`. What the tried policies changed stays changed.
    fn should_execute(
        &self,
        origin: &O,
        instructions: &mut Vec<I>,
        max_weight: Weight,
        properties: &mut Properties,
    ) -> (verdict: Result<(), ProcessMessageError>)
    {
        let mut nobody = ();
        self.should_execute_observed(origin, instructions, max_weight, properties, &mut nobody)
    }
}

/// What an observer of an admission run is told, trial by trial. A
/// rejection is routine here, so every trial is of the lower severity.
pub open spec fn admission_notes<O, I>(
    origin: O,
    trace: Seq<Trial<I, Result<(), ProcessMessageError>>>,
    max_weight: Weight,
) -> Seq<TrialNote<O, I, Result<(), ProcessMessageError>>> {
    Seq::new(
        trace.len(),
        |i: int| Trial::note_of(origin, trace, max_weight, Severity::Trace, i),
    )
}

impl<P> AdmissionChain<P> {
    /// Does what `should_execute` does, and tells `observer` of each trial as
    /// it ends, in order. The observer learns of the rejections that the
    /// answer drops.
    pub fn should_execute_observed<O, I, W>(
        &self,
        origin: &O,
        instructions: &mut Vec<I>,
        max_weight: Weight,
        properties: &mut Properties,
        observer: &mut W,
    ) -> (verdict: Result<(), ProcessMessageError>) where
        P: ShouldExecute<O, I>,
        W: TrialObserver<O, I, Result<(), ProcessMessageError>>,
        ensures
            exists|trace: Seq<Trial<I, Result<(), ProcessMessageError>>>|
                {
                    &&& #[trigger] admission_run(
                        self.policies@,
                        *origin,
                        max_weight,
                        Snapshot::of(old(instructions)@, *old(properties)),
                        trace,
                    )
                    &&& verdict == admission_verdict(trace)
                    &&& Snapshot::of(final(instructions)@, *final(properties)) == Trial::left_by(
                        Snapshot::of(old(instructions)@, *old(properties)),
                        trace,
                    )
                    &&& TrialNote::noted_each(
                        *old(observer),
                        *final(observer),
                        admission_notes(*origin, trace, max_weight),
                    )
                },
    {
        let ghost start = Snapshot::of(instructions@, *properties);
        let ghost mut trace: Seq<Trial<I, Result<(), ProcessMessageError>>> = Seq::empty();
        let ghost mut states: Seq<W> = seq![*observer];
        let mut i: usize = 0;
        while i < self.policies.len()
            invariant
                i <= self.policies.len(),
                trace.len() == i,
                start == Snapshot::of(old(instructions)@, *old(properties)),
                forall|j: int|
                    0 <= j < trace.len() ==> self.policies@[j].execute_outcome(
                        *origin,
                        max_weight,
                        #[trigger] Trial::seen_by(start, trace, j),
                        trace[j].after,
                        trace[j].verdict,
                    ),
                forall|j: int| 0 <= j < trace.len() ==> (#[trigger] trace[j]).verdict is Err,
                Snapshot::of(instructions@, *properties) == Trial::left_by(start, trace),
                TrialNote::noted_along(
                    *old(observer),
                    *observer,
                    admission_notes(*origin, trace, max_weight),
                    states,
                ),
            decreases self.policies.len() - i,
        {
            let trial = self.policies[i].should_execute(origin, instructions, max_weight, properties);
            let ghost told = admission_notes(*origin, trace, max_weight);
            observer.trial_ended(i, Severity::Trace, origin, instructions, max_weight, properties, trial);
            proof {
                let earlier = trace;
                trace = trace.push(Trial { verdict: trial, after: Snapshot::of(instructions@, *properties) });
                assert forall|j: int| 0 <= j < trace.len() implies self.policies@[j].execute_outcome(
                    *origin,
                    max_weight,
                    #[trigger] Trial::seen_by(start, trace, j),
                    trace[j].after,
                    trace[j].verdict,
                ) by {
                    assert(Trial::seen_by(start, trace, j) == Trial::seen_by(start, earlier, j));
                }
                let notes = admission_notes(*origin, trace, max_weight);
                let watched = states;
                states = states.push(*observer);
                assert forall|j: int| 0 <= j < notes.len() implies states[j + 1].noted(
                    &states[j],
                    #[trigger] notes[j],
                ) by {
                    if j < told.len() {
                        assert(notes[j] == told[j]);
                        assert(states[j + 1] == watched[j + 1]);
                    }
                }
            }
            if let Some(answer) = decide(trial) {
                assert(admission_run(self.policies@, *origin, max_weight, start, trace));
                assert(TrialNote::noted_along(
                    *old(observer),
                    *observer,
                    admission_notes(*origin, trace, max_weight),
                    states,
                ));
                assert(trace.last().verdict is Ok);
                assert(Trial::left_by(start, trace) == Snapshot::of(instructions@, *properties));
                return answer;
            }
            i += 1;
        }
        assert(admission_run(self.policies@, *origin, max_weight, start, trace));
        Err(ProcessMessageError::Unsupported)
    }
}

/// The chain of no policy: it rejects with `Unsupported` and changes
/// nothing.
impl<O, I> ShouldExecute<O, I> for () {
    open spec fn execute_outcome(
        &self,
        origin: O,
        max_weight: Weight,
        before: Snapshot<I>,
        after: Snapshot<I>,
        verdict: Result<(), ProcessMessageError>,
    ) -> bool {
        after == before && verdict == Err::<(), ProcessMessageError>(
            ProcessMessageError::Unsupported,
        )
    }

    fn should_execute(
        &self,
        origin: &O,
        instructions: &mut Vec<I>,
        max_weight: Weight,
        properties: &mut Properties,
    ) -> (verdict: Result<(), ProcessMessageError>)
    {
        Err(ProcessMessageError::Unsupported)
    }
}

/// Two policies in a row, of whatever types; a pair may hold pairs, so a
/// chain of any length and mixture can be put together. A pair tells no
/// observer of its trials: a run that is to be watched takes a chain.
impl<O, I, A: ShouldExecute<O, I>, B: ShouldExecute<O, I>> ShouldExecute<O, I> for (A, B) {
    open spec fn execute_outcome(
        &self,
        origin: O,
        max_weight: Weight,
        before: Snapshot<I>,
        after: Snapshot<I>,
        verdict: Result<(), ProcessMessageError>,
    ) -> bool {
        exists|first: Result<(), ProcessMessageError>, between: Snapshot<I>|
            {
                &&& #[trigger] self.0.execute_outcome(origin, max_weight, before, between, first)
                &&& if first is Ok {
                    after == between && verdict == Ok::<(), ProcessMessageError>(())
                } else {
                    exists|second: Result<(), ProcessMessageError>|
                        {
                            &&& #[trigger] self.1.execute_outcome(
                                origin,
                                max_weight,
                                between,
                                after,
                                second,
                            )
                            &&& verdict == if second is Ok {
                                Ok::<(), ProcessMessageError>(())
                            } else {
                                Err(ProcessMessageError::Unsupported)
                            }
                        }
                }
            }
    }

    /// Accepts if the first policy does; else tries the second, shown what
    /// the first left, and accepts if that one does; else rejects with
    /// `Unsupported`.
    fn should_execute(
        &self,
        origin: &O,
        instructions: &mut Vec<I>,
        max_weight: Weight,
        properties: &mut Properties,
    ) -> (verdict: Result<(), ProcessMessageError>)
    {
        let first = self.0.should_execute(origin, instructions, max_weight, properties);
        if let Some(answer) = decide(first) {
            return answer;
        }
        let second = self.1.should_execute(origin, instructions, max_weight, properties);
        match decide(second) {
            Some(answer) => answer,
            None => Err(ProcessMessageError::Unsupported),
        }
    }
}

/// Whether `policy`, shown `before`, can only accept.
pub open spec fn accepts_on<O, I, P: ShouldExecute<O, I>>(
    policy: P,
    origin: O,
    max_weight: Weight,
    before: Snapshot<I>,
) -> bool {
    forall|after: Snapshot<I>, verdict: Result<(), ProcessMessageError>|
        #[trigger] policy.execute_outcome(origin, max_weight, before, after, verdict)
            ==> verdict is Ok
}

/// Whether `policy` changes nothing whenever it rejects.
pub open spec fn rejects_cleanly<O, I, P: ShouldExecute<O, I>>(
    policy: P,
    origin: O,
    max_weight: Weight,
) -> bool {
    forall|before: Snapshot<I>, after: Snapshot<I>, verdict: Result<(), ProcessMessageError>|
        #[trigger] policy.execute_outcome(origin, max_weight, before, after, verdict)
            && verdict is Err ==> after == before
}

/// The trial that accepts decides the run: it is the last one, every trial
/// before it rejected, the run accepts, and the caller finds exactly what
/// the accepting policy made of what it was shown at its turn.
pub proof fn lemma_admission_first_accept_wins<O, I, P: ShouldExecute<O, I>>(
    policies: Seq<P>,
    origin: O,
    max_weight: Weight,
    start: Snapshot<I>,
    trace: Seq<Trial<I, Result<(), ProcessMessageError>>>,
    k: int,
)
    requires
        admission_run(policies, origin, max_weight, start, trace),
        0 <= k < trace.len(),
        trace[k].verdict is Ok,
    ensures
        k == trace.len() - 1,
        forall|j: int| 0 <= j < k ==> (#[trigger] trace[j]).verdict is Err,
        admission_verdict(trace) == Ok::<(), ProcessMessageError>(()),
        Trial::left_by(start, trace) == trace[k].after,
        policies[k].execute_outcome(
            origin,
            max_weight,
            Trial::seen_by(start, trace, k),
            Trial::left_by(start, trace),
            Ok(()),
        ),
{
    let shown = Trial::seen_by(start, trace, k);
    let unit = trace[k].verdict->Ok_0;
    assert(unit == ());
    assert(trace[k].verdict == Ok::<(), ProcessMessageError>(()));
}

/// A run that rejects has tried every policy once, each of them rejected,
/// and the answer is `Unsupported` whatever reasons they gave.
pub proof fn lemma_admission_rejects_when_all_reject<O, I, P: ShouldExecute<O, I>>(
    policies: Seq<P>,
    origin: O,
    max_weight: Weight,
    start: Snapshot<I>,
    trace: Seq<Trial<I, Result<(), ProcessMessageError>>>,
)
    requires
        admission_run(policies, origin, max_weight, start, trace),
    ensures
        admission_verdict(trace) is Err <==> trace.len() == policies.len() && forall|j: int|
            0 <= j < trace.len() ==> (#[trigger] trace[j]).verdict is Err,
        admission_verdict(trace) is Err ==> admission_verdict(trace) == Err::<
            (),
            ProcessMessageError,
        >(ProcessMessageError::Unsupported),
{
    if trace.len() > 0 && admission_verdict(trace) is Err {
        assert(trace[trace.len() - 1].verdict is Err);
    }
}

/// If some policy of the chain accepts whatever it is shown, the chain
/// accepts, with that policy or with one before it.
pub proof fn lemma_admission_accepts_if_one_always_does<O, I, P: ShouldExecute<O, I>>(
    policies: Seq<P>,
    origin: O,
    max_weight: Weight,
    start: Snapshot<I>,
    trace: Seq<Trial<I, Result<(), ProcessMessageError>>>,
    k: int,
)
    requires
        admission_run(policies, origin, max_weight, start, trace),
        0 <= k < policies.len(),
        forall|shown: Snapshot<I>| accepts_on(policies[k], origin, max_weight, shown),
    ensures
        admission_verdict(trace) == Ok::<(), ProcessMessageError>(()),
        0 < trace.len() <= k + 1,
{
    if trace.len() > k {
        let shown = Trial::seen_by(start, trace, k);
        assert(accepts_on(policies[k], origin, max_weight, shown));
        assert(trace[k].verdict is Ok);
    }
}

/// While every trial so far rejected and the policies tried reject without
/// changing anything, the next policy is shown what the caller handed in.
proof fn lemma_admission_untouched<O, I, P: ShouldExecute<O, I>>(
    policies: Seq<P>,
    origin: O,
    max_weight: Weight,
    start: Snapshot<I>,
    trace: Seq<Trial<I, Result<(), ProcessMessageError>>>,
    n: int,
)
    requires
        admission_run(policies, origin, max_weight, start, trace),
        0 <= n <= trace.len(),
        forall|j: int| 0 <= j < n ==> rejects_cleanly(#[trigger] policies[j], origin, max_weight),
        forall|j: int| 0 <= j < n ==> (#[trigger] trace[j]).verdict is Err,
    ensures
        Trial::seen_by(start, trace, n) == start,
    decreases n,
{
    if n > 0 {
        lemma_admission_untouched(policies, origin, max_weight, start, trace, n - 1);
        let shown = Trial::seen_by(start, trace, n - 1);
        assert(rejects_cleanly(policies[n - 1], origin, max_weight));
        assert(trace[n - 1].verdict is Err);
    }
}

/// If a policy accepts the caller's values when tried alone, and every
/// policy before it leaves things as they were when it rejects, the chain
/// accepts, and the caller finds what an accepting policy, that one or one
/// before it, made of the caller's values.
pub proof fn lemma_admission_accepts_as_in_isolation<O, I, P: ShouldExecute<O, I>>(
    policies: Seq<P>,
    origin: O,
    max_weight: Weight,
    start: Snapshot<I>,
    trace: Seq<Trial<I, Result<(), ProcessMessageError>>>,
    k: int,
)
    requires
        admission_run(policies, origin, max_weight, start, trace),
        0 <= k < policies.len(),
        accepts_on(policies[k], origin, max_weight, start),
        forall|j: int| 0 <= j < k ==> rejects_cleanly(#[trigger] policies[j], origin, max_weight),
    ensures
        admission_verdict(trace) == Ok::<(), ProcessMessageError>(()),
        0 < trace.len() <= k + 1,
        policies[trace.len() - 1].execute_outcome(
            origin,
            max_weight,
            start,
            Trial::left_by(start, trace),
            Ok(()),
        ),
{
    if trace.len() > k {
        lemma_admission_untouched(policies, origin, max_weight, start, trace, k);
        let shown = Trial::seen_by(start, trace, k);
        assert(trace[k].verdict is Ok);
        lemma_admission_first_accept_wins(policies, origin, max_weight, start, trace, k);
    } else {
        let last = trace.len() - 1;
        lemma_admission_untouched(policies, origin, max_weight, start, trace, last);
        lemma_admission_first_accept_wins(policies, origin, max_weight, start, trace, last);
    }
}

/// The same of a chain and its answer: if a policy accepts the caller's
/// values when tried alone, and every policy before it leaves things as
/// they were when it rejects, the chain accepts, and the caller finds what
/// the first policy to accept made of the caller's values.
pub proof fn lemma_admission_chain_accepts_as_in_isolation<O, I, P: ShouldExecute<O, I>>(
    chain: AdmissionChain<P>,
    origin: O,
    max_weight: Weight,
    before: Snapshot<I>,
    after: Snapshot<I>,
    verdict: Result<(), ProcessMessageError>,
    k: int,
)
    requires
        chain.execute_outcome(origin, max_weight, before, after, verdict),
        0 <= k < chain.policies@.len(),
        accepts_on(chain.policies@[k], origin, max_weight, before),
        forall|j: int|
            0 <= j < k ==> rejects_cleanly(#[trigger] chain.policies@[j], origin, max_weight),
    ensures
        verdict == Ok::<(), ProcessMessageError>(()),
        exists|first: int|
            0 <= first <= k && #[trigger] chain.policies@[first].execute_outcome(
                origin,
                max_weight,
                before,
                after,
                Ok(()),
            ),
{
    let trace = choose|trace: Seq<Trial<I, Result<(), ProcessMessageError>>>|
        {
            &&& #[trigger] admission_run(chain.policies@, origin, max_weight, before, trace)
            &&& verdict == admission_verdict(trace)
            &&& after == Trial::left_by(before, trace)
        };
    lemma_admission_accepts_as_in_isolation(chain.policies@, origin, max_weight, before, trace, k);
    let first = trace.len() - 1;
    assert(chain.policies@[first].execute_outcome(origin, max_weight, before, after, Ok(())));
}

/// A chain without policies rejects with `Unsupported` and changes nothing.
pub proof fn lemma_admission_empty_rejects<O, I, P: ShouldExecute<O, I>>(
    chain: AdmissionChain<P>,
    origin: O,
    max_weight: Weight,
    before: Snapshot<I>,
    after: Snapshot<I>,
    verdict: Result<(), ProcessMessageError>,
)
    requires
        chain.policies@.len() == 0,
        chain.execute_outcome(origin, max_weight, before, after, verdict),
    ensures
        verdict == Err::<(), ProcessMessageError>(ProcessMessageError::Unsupported),
        after == before,
{
}

/// Whether what `policy` answers and leaves is a function of what it is
/// shown.
pub open spec fn admission_is_deterministic<O, I, P: ShouldExecute<O, I>>(
    policy: P,
    origin: O,
    max_weight: Weight,
) -> bool {
    forall|
        before: Snapshot<I>,
        after1: Snapshot<I>,
        verdict1: Result<(), ProcessMessageError>,
        after2: Snapshot<I>,
        verdict2: Result<(), ProcessMessageError>,
    |
        #[trigger] policy.execute_outcome(origin, max_weight, before, after1, verdict1)
            && #[trigger] policy.execute_outcome(origin, max_weight, before, after2, verdict2)
            ==> after1 == after2 && verdict1 == verdict2
}

/// Two runs of deterministic policies from the same values agree on their
/// first `n` trials.
proof fn lemma_admission_runs_agree_on<O, I, P: ShouldExecute<O, I>>(
    policies: Seq<P>,
    origin: O,
    max_weight: Weight,
    start: Snapshot<I>,
    trace1: Seq<Trial<I, Result<(), ProcessMessageError>>>,
    trace2: Seq<Trial<I, Result<(), ProcessMessageError>>>,
    n: int,
)
    requires
        admission_run(policies, origin, max_weight, start, trace1),
        admission_run(policies, origin, max_weight, start, trace2),
        forall|i: int|
            0 <= i < policies.len() ==> admission_is_deterministic(
                #[trigger] policies[i],
                origin,
                max_weight,
            ),
        0 <= n <= trace1.len(),
        n <= trace2.len(),
    ensures
        forall|j: int| 0 <= j < n ==> trace1[j] == trace2[j],
    decreases n,
{
    if n > 0 {
        lemma_admission_runs_agree_on(policies, origin, max_weight, start, trace1, trace2, n - 1);
        let shown1 = Trial::seen_by(start, trace1, n - 1);
        let shown2 = Trial::seen_by(start, trace2, n - 1);
        if n > 1 {
            assert(trace1[n - 2] == trace2[n - 2]);
        }
        assert(shown1 == shown2);
        assert(admission_is_deterministic(policies[n - 1], origin, max_weight));
        assert(policies[n - 1].execute_outcome(
            origin,
            max_weight,
            shown1,
            trace1[n - 1].after,
            trace1[n - 1].verdict,
        ));
        assert(policies[n - 1].execute_outcome(
            origin,
            max_weight,
            shown1,
            trace2[n - 1].after,
            trace2[n - 1].verdict,
        ));
    }
}

/// If what each policy does is a function of what it is shown, so is what
/// the chain does: from the same values every run tries the same policies
/// with the same outcomes, gives the same answer and leaves the same
/// behind.
pub proof fn lemma_admission_chain_is_deterministic<O, I, P: ShouldExecute<O, I>>(
    policies: Seq<P>,
    origin: O,
    max_weight: Weight,
    start: Snapshot<I>,
    trace1: Seq<Trial<I, Result<(), ProcessMessageError>>>,
    trace2: Seq<Trial<I, Result<(), ProcessMessageError>>>,
)
    requires
        admission_run(policies, origin, max_weight, start, trace1),
        admission_run(policies, origin, max_weight, start, trace2),
        forall|i: int|
            0 <= i < policies.len() ==> admission_is_deterministic(
                #[trigger] policies[i],
                origin,
                max_weight,
            ),
    ensures
        trace1 == trace2,
        admission_verdict(trace1) == admission_verdict(trace2),
        Trial::left_by(start, trace1) == Trial::left_by(start, trace2),
{
    let n = if trace1.len() <= trace2.len() {
        trace1.len() as int
    } else {
        trace2.len() as int
    };
    lemma_admission_runs_agree_on(policies, origin, max_weight, start, trace1, trace2, n);
    if trace1.len() < trace2.len() {
        assert(trace1[n - 1] == trace2[n - 1]);
        assert(false);
    }
    if trace2.len() < trace1.len() {
        assert(trace1[n - 1] == trace2[n - 1]);
        assert(false);
    }
    assert(trace1 =~= trace2);
}

} // verus!
