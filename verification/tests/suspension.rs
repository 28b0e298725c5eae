use std::cell::Cell;

use xcm_barrier::{CheckSuspension, Properties, Severity, SuspensionChain, TrialEvent, Weight};

type Origin = u32;
type Instruction = &'static str;

enum Kind {
    /// Always answers the same.
    Fixed(bool),
    /// Suspends messages of the given sender.
    SuspendFrom(Origin),
    /// Names the message and reports no suspension.
    TagAndContinue([u8; 32]),
}

struct Policy {
    kind: Kind,
    calls: Cell<usize>,
}

fn policy(kind: Kind) -> Policy {
    Policy { kind, calls: Cell::new(0) }
}

impl CheckSuspension<Origin, Instruction> for Policy {
    fn is_suspended(
        &self,
        origin: &Origin,
        _instructions: &mut Vec<Instruction>,
        _max_weight: Weight,
        properties: &mut Properties,
    ) -> bool {
        self.calls.set(self.calls.get() + 1);
        match &self.kind {
            Kind::Fixed(answer) => *answer,
            Kind::SuspendFrom(who) => origin == who,
            Kind::TagAndContinue(id) => {
                properties.message_id = Some(*id);
                false
            }
        }
    }
}

fn run(chain: &SuspensionChain<Policy>, origin: Origin) -> bool {
    let mut instructions = vec!["transfer"];
    let mut properties = Properties::new(Weight::zero());
    chain.is_suspended(&origin, &mut instructions, Weight::from_parts(1, 1), &mut properties)
}

#[test]
fn suspension_first_true_stops_the_chain() {
    let chain = SuspensionChain::new(vec![
        policy(Kind::Fixed(false)),
        policy(Kind::Fixed(true)),
        policy(Kind::Fixed(false)),
    ]);
    assert!(run(&chain, 1));
    assert_eq!(chain.policies[0].calls.get(), 1);
    assert_eq!(chain.policies[1].calls.get(), 1);
    assert_eq!(chain.policies[2].calls.get(), 0);
}

#[test]
fn suspension_all_false_tries_every_policy_once() {
    let chain = SuspensionChain::new(vec![
        policy(Kind::Fixed(false)),
        policy(Kind::SuspendFrom(3)),
        policy(Kind::Fixed(false)),
    ]);
    assert!(!run(&chain, 1));
    assert_eq!(chain.policies[0].calls.get(), 1);
    assert_eq!(chain.policies[1].calls.get(), 1);
    assert_eq!(chain.policies[2].calls.get(), 1);
    assert!(run(&chain, 3));
    assert_eq!(chain.policies[2].calls.get(), 1);
}

#[test]
fn suspension_empty_chain_is_not_suspended() {
    let chain: SuspensionChain<Policy> = SuspensionChain::new(Vec::new());
    let mut instructions = vec!["transfer"];
    let mut properties = Properties::new(Weight::from_parts(2, 2));
    assert!(!chain.is_suspended(&1, &mut instructions, Weight::zero(), &mut properties));
    assert_eq!(instructions, vec!["transfer"]);
    assert_eq!(properties, Properties::new(Weight::from_parts(2, 2)));
}

#[test]
fn suspension_keeps_what_policies_changed() {
    let id = [1u8; 32];
    let chain = SuspensionChain::new(vec![
        policy(Kind::TagAndContinue(id)),
        policy(Kind::Fixed(true)),
    ]);
    let mut instructions = vec!["transfer"];
    let mut properties = Properties::new(Weight::zero());
    assert!(chain.is_suspended(&1, &mut instructions, Weight::zero(), &mut properties));
    assert_eq!(properties.message_id, Some(id));
}

#[test]
fn suspension_events_record_each_trial() {
    let id = [2u8; 32];
    let chain = SuspensionChain::new(vec![
        policy(Kind::TagAndContinue(id)),
        policy(Kind::Fixed(true)),
        policy(Kind::Fixed(true)),
    ]);
    let mut instructions = vec!["transfer"];
    let mut properties = Properties::new(Weight::zero());
    let max_weight = Weight::from_parts(6, 7);
    let mut events = Vec::new();
    let suspended = chain.is_suspended_observed(
        &1,
        &mut instructions,
        max_weight,
        &mut properties,
        &mut events,
    );
    assert!(suspended);
    let tagged = Properties { weight_credit: Weight::zero(), message_id: Some(id) };
    assert_eq!(
        events,
        vec![
            TrialEvent {
                barrier: 0,
                severity: Severity::Trace,
                instruction_count: 1,
                max_weight,
                properties: tagged,
                verdict: false,
            },
            TrialEvent {
                barrier: 1,
                severity: Severity::Trace,
                instruction_count: 1,
                max_weight,
                properties: tagged,
                verdict: true,
            },
        ]
    );
}
