use std::cell::Cell;

use xcm_barrier::{
    DenialChain, DenyExecution, ProcessMessageError, Properties, Severity, TrialEvent, Weight,
};

type Origin = u32;
type Instruction = &'static str;

enum Kind {
    /// Finds no reason to deny.
    Pass,
    /// Denies with the given reason.
    Deny(ProcessMessageError),
    /// Denies a message that holds the given instruction.
    Forbid(Instruction),
    /// Removes the last instruction and finds no reason to deny.
    TrimAndPass,
    /// Clears the credit, then denies.
    ClearCreditAndDeny,
}

struct Policy {
    kind: Kind,
    calls: Cell<usize>,
}

fn policy(kind: Kind) -> Policy {
    Policy { kind, calls: Cell::new(0) }
}

impl DenyExecution<Origin, Instruction> for Policy {
    fn deny_execution(
        &self,
        _origin: &Origin,
        instructions: &mut Vec<Instruction>,
        _max_weight: Weight,
        properties: &mut Properties,
    ) -> Result<(), ProcessMessageError> {
        self.calls.set(self.calls.get() + 1);
        match &self.kind {
            Kind::Pass => Ok(()),
            Kind::Deny(reason) => Err(*reason),
            Kind::Forbid(what) => {
                if instructions.contains(what) {
                    Err(ProcessMessageError::Unsupported)
                } else {
                    Ok(())
                }
            }
            Kind::TrimAndPass => {
                instructions.pop();
                Ok(())
            }
            Kind::ClearCreditAndDeny => {
                properties.weight_credit = Weight::zero();
                Err(ProcessMessageError::Yield)
            }
        }
    }
}

fn message() -> Vec<Instruction> {
    vec!["pay_fees", "transfer", "deposit"]
}

fn run(chain: &DenialChain<Policy>) -> Result<(), ProcessMessageError> {
    let mut instructions = message();
    let mut properties = Properties::new(Weight::from_parts(3, 3));
    chain.deny_execution(&1, &mut instructions, Weight::from_parts(9, 9), &mut properties)
}

#[test]
fn denial_first_reason_is_returned_and_stops_the_chain() {
    let chain = DenialChain::new(vec![
        policy(Kind::Pass),
        policy(Kind::Deny(ProcessMessageError::BadFormat)),
        policy(Kind::Pass),
    ]);
    assert_eq!(run(&chain), Err(ProcessMessageError::BadFormat));
    assert_eq!(chain.policies[0].calls.get(), 1);
    assert_eq!(chain.policies[1].calls.get(), 1);
    assert_eq!(chain.policies[2].calls.get(), 0);
}

#[test]
fn denial_of_two_reasons_the_first_wins() {
    let chain = DenialChain::new(vec![
        policy(Kind::Deny(ProcessMessageError::Corrupt)),
        policy(Kind::Deny(ProcessMessageError::BadFormat)),
    ]);
    assert_eq!(run(&chain), Err(ProcessMessageError::Corrupt));
    assert_eq!(chain.policies[1].calls.get(), 0);
}

#[test]
fn denial_empty_chain_accepts() {
    let chain: DenialChain<Policy> = DenialChain::new(Vec::new());
    let mut instructions = message();
    let mut properties = Properties::new(Weight::from_parts(3, 3));
    let verdict = chain.deny_execution(&1, &mut instructions, Weight::zero(), &mut properties);
    assert_eq!(verdict, Ok(()));
    assert_eq!(instructions, message());
    assert_eq!(properties, Properties::new(Weight::from_parts(3, 3)));
}

#[test]
fn denial_accepts_when_every_policy_accepts() {
    let chain = DenialChain::new(vec![
        policy(Kind::Pass),
        policy(Kind::Forbid("teleport")),
        policy(Kind::Pass),
    ]);
    assert_eq!(run(&chain), Ok(()));
    assert_eq!(chain.policies[0].calls.get(), 1);
    assert_eq!(chain.policies[1].calls.get(), 1);
    assert_eq!(chain.policies[2].calls.get(), 1);
}

#[test]
fn denial_hands_on_every_kind_of_reason() {
    let reasons = [
        ProcessMessageError::BadFormat,
        ProcessMessageError::Corrupt,
        ProcessMessageError::Unsupported,
        ProcessMessageError::Overweight(Weight::from_parts(12, 34)),
        ProcessMessageError::Yield,
        ProcessMessageError::StackLimitReached,
    ];
    for reason in reasons {
        let chain = DenialChain::new(vec![policy(Kind::Pass), policy(Kind::Deny(reason))]);
        assert_eq!(run(&chain), Err(reason));
    }
}

#[test]
fn denial_sees_what_earlier_policies_changed() {
    let chain = DenialChain::new(vec![policy(Kind::TrimAndPass), policy(Kind::Forbid("deposit"))]);
    let mut instructions = message();
    let mut properties = Properties::new(Weight::zero());
    let verdict = chain.deny_execution(&1, &mut instructions, Weight::zero(), &mut properties);
    assert_eq!(verdict, Ok(()));
    assert_eq!(instructions, vec!["pay_fees", "transfer"]);

    let chain = DenialChain::new(vec![policy(Kind::Forbid("deposit")), policy(Kind::TrimAndPass)]);
    let mut instructions = message();
    let verdict = chain.deny_execution(&1, &mut instructions, Weight::zero(), &mut properties);
    assert_eq!(verdict, Err(ProcessMessageError::Unsupported));
    assert_eq!(instructions, message());
    assert_eq!(chain.policies[1].calls.get(), 0);
}

#[test]
fn denial_keeps_the_changes_of_the_denying_policy() {
    let chain = DenialChain::new(vec![policy(Kind::ClearCreditAndDeny), policy(Kind::Pass)]);
    let mut instructions = message();
    let mut properties = Properties::new(Weight::from_parts(5, 6));
    let verdict = chain.deny_execution(&1, &mut instructions, Weight::zero(), &mut properties);
    assert_eq!(verdict, Err(ProcessMessageError::Yield));
    assert_eq!(properties, Properties::new(Weight::zero()));
}

#[test]
fn denial_events_mark_the_denial() {
    let chain = DenialChain::new(vec![
        policy(Kind::TrimAndPass),
        policy(Kind::Deny(ProcessMessageError::StackLimitReached)),
        policy(Kind::Pass),
    ]);
    let mut instructions = message();
    let mut properties = Properties::new(Weight::from_parts(1, 2));
    let max_weight = Weight::from_parts(8, 8);
    let mut events = Vec::new();
    let verdict = chain.deny_execution_observed(
        &1,
        &mut instructions,
        max_weight,
        &mut properties,
        &mut events,
    );
    assert_eq!(verdict, Err(ProcessMessageError::StackLimitReached));
    assert_eq!(
        events,
        vec![
            TrialEvent {
                barrier: 0,
                severity: Severity::Trace,
                instruction_count: 2,
                max_weight,
                properties: Properties::new(Weight::from_parts(1, 2)),
                verdict: Ok(()),
            },
            TrialEvent {
                barrier: 1,
                severity: Severity::Error,
                instruction_count: 2,
                max_weight,
                properties: Properties::new(Weight::from_parts(1, 2)),
                verdict: Err(ProcessMessageError::StackLimitReached),
            },
        ]
    );
}
