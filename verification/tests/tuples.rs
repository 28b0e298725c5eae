use std::cell::Cell;

use xcm_barrier::{
    CheckSuspension, DenyExecution, ProcessMessageError, Properties, ShouldExecute, Weight,
};

type Origin = &'static str;
type Instruction = u8;

/// Answers `Ok` to everything and counts how often it was asked.
struct Agree {
    calls: Cell<usize>,
}

/// Answers with its reason to everything and counts how often it was asked.
struct Refuse {
    reason: ProcessMessageError,
    calls: Cell<usize>,
}

/// Takes the first instruction as a fee of ten units in each dimension.
struct TakeFee;

/// Answers `true` or `false` as set and counts how often it was asked.
struct Flag {
    up: bool,
    calls: Cell<usize>,
}

fn agree() -> Agree {
    Agree { calls: Cell::new(0) }
}

fn refuse(reason: ProcessMessageError) -> Refuse {
    Refuse { reason, calls: Cell::new(0) }
}

fn flag(up: bool) -> Flag {
    Flag { up, calls: Cell::new(0) }
}

impl ShouldExecute<Origin, Instruction> for Agree {
    fn should_execute(
        &self,
        _origin: &Origin,
        _instructions: &mut Vec<Instruction>,
        _max_weight: Weight,
        _properties: &mut Properties,
    ) -> Result<(), ProcessMessageError> {
        self.calls.set(self.calls.get() + 1);
        Ok(())
    }
}

impl ShouldExecute<Origin, Instruction> for Refuse {
    fn should_execute(
        &self,
        _origin: &Origin,
        _instructions: &mut Vec<Instruction>,
        _max_weight: Weight,
        _properties: &mut Properties,
    ) -> Result<(), ProcessMessageError> {
        self.calls.set(self.calls.get() + 1);
        Err(self.reason)
    }
}

impl ShouldExecute<Origin, Instruction> for TakeFee {
    fn should_execute(
        &self,
        _origin: &Origin,
        instructions: &mut Vec<Instruction>,
        max_weight: Weight,
        properties: &mut Properties,
    ) -> Result<(), ProcessMessageError> {
        if instructions.first() == Some(&0) {
            instructions.remove(0);
            properties.weight_credit =
                properties.weight_credit.saturating_add(Weight::from_parts(10, 10));
        }
        if max_weight.all_lte(properties.weight_credit) {
            Ok(())
        } else {
            Err(ProcessMessageError::Overweight(max_weight))
        }
    }
}

impl DenyExecution<Origin, Instruction> for Agree {
    fn deny_execution(
        &self,
        _origin: &Origin,
        _instructions: &mut Vec<Instruction>,
        _max_weight: Weight,
        _properties: &mut Properties,
    ) -> Result<(), ProcessMessageError> {
        self.calls.set(self.calls.get() + 1);
        Ok(())
    }
}

impl DenyExecution<Origin, Instruction> for Refuse {
    fn deny_execution(
        &self,
        _origin: &Origin,
        _instructions: &mut Vec<Instruction>,
        _max_weight: Weight,
        _properties: &mut Properties,
    ) -> Result<(), ProcessMessageError> {
        self.calls.set(self.calls.get() + 1);
        Err(self.reason)
    }
}

impl CheckSuspension<Origin, Instruction> for Flag {
    fn is_suspended(
        &self,
        _origin: &Origin,
        _instructions: &mut Vec<Instruction>,
        _max_weight: Weight,
        _properties: &mut Properties,
    ) -> bool {
        self.calls.set(self.calls.get() + 1);
        self.up
    }
}

#[test]
fn unit_admission_rejects() {
    let mut instructions = vec![0, 1];
    let mut properties = Properties::new(Weight::zero());
    let verdict = ShouldExecute::<Origin, Instruction>::should_execute(
        &(),
        &"alice",
        &mut instructions,
        Weight::zero(),
        &mut properties,
    );
    assert_eq!(verdict, Err(ProcessMessageError::Unsupported));
    assert_eq!(instructions, vec![0, 1]);
}

#[test]
fn unit_denial_accepts() {
    let mut instructions = vec![0, 1];
    let mut properties = Properties::new(Weight::zero());
    let verdict = DenyExecution::<Origin, Instruction>::deny_execution(
        &(),
        &"alice",
        &mut instructions,
        Weight::zero(),
        &mut properties,
    );
    assert_eq!(verdict, Ok(()));
    assert_eq!(instructions, vec![0, 1]);
}

#[test]
fn unit_suspension_is_false() {
    let mut instructions = vec![0, 1];
    let mut properties = Properties::new(Weight::zero());
    let suspended = CheckSuspension::<Origin, Instruction>::is_suspended(
        &(),
        &"alice",
        &mut instructions,
        Weight::zero(),
        &mut properties,
    );
    assert!(!suspended);
    assert_eq!(instructions, vec![0, 1]);
}

#[test]
fn pair_admission_accepts_with_the_second() {
    let chain = (refuse(ProcessMessageError::BadFormat), agree());
    let mut instructions = vec![1];
    let mut properties = Properties::new(Weight::zero());
    let verdict = chain.should_execute(&"alice", &mut instructions, Weight::zero(), &mut properties);
    assert_eq!(verdict, Ok(()));
    assert_eq!(chain.0.calls.get(), 1);
    assert_eq!(chain.1.calls.get(), 1);
}

#[test]
fn pair_admission_stops_at_the_first_that_accepts() {
    let chain = (agree(), refuse(ProcessMessageError::BadFormat));
    let mut instructions = vec![1];
    let mut properties = Properties::new(Weight::zero());
    let verdict = chain.should_execute(&"alice", &mut instructions, Weight::zero(), &mut properties);
    assert_eq!(verdict, Ok(()));
    assert_eq!(chain.0.calls.get(), 1);
    assert_eq!(chain.1.calls.get(), 0);
}

#[test]
fn pair_admission_rejects_with_unsupported() {
    let chain = (refuse(ProcessMessageError::BadFormat), refuse(ProcessMessageError::Corrupt));
    let mut instructions = vec![1];
    let mut properties = Properties::new(Weight::zero());
    let verdict = chain.should_execute(&"alice", &mut instructions, Weight::zero(), &mut properties);
    assert_eq!(verdict, Err(ProcessMessageError::Unsupported));
    assert_eq!(chain.0.calls.get(), 1);
    assert_eq!(chain.1.calls.get(), 1);
}

#[test]
fn nested_pairs_make_a_longer_admission_chain() {
    let chain = ((refuse(ProcessMessageError::Yield), TakeFee), (agree(), ()));
    let mut instructions = vec![0, 5, 6];
    let mut properties = Properties::new(Weight::from_parts(1, 2));

    let verdict =
        chain.should_execute(&"alice", &mut instructions, Weight::from_parts(11, 12), &mut properties);
    assert_eq!(verdict, Ok(()));
    assert_eq!(instructions, vec![5, 6]);
    assert_eq!(properties.weight_credit, Weight::from_parts(11, 12));
    assert_eq!((chain.1).0.calls.get(), 0);

    let verdict =
        chain.should_execute(&"alice", &mut instructions, Weight::from_parts(11, 13), &mut properties);
    assert_eq!(verdict, Ok(()));
    assert_eq!(instructions, vec![5, 6]);
    assert_eq!((chain.1).0.calls.get(), 1);
}

#[test]
fn fee_taken_by_a_rejecting_policy_stays_taken() {
    let chain = (TakeFee, refuse(ProcessMessageError::Corrupt));
    let mut instructions = vec![0, 5, 6];
    let mut properties = Properties::new(Weight::zero());
    let verdict =
        chain.should_execute(&"alice", &mut instructions, Weight::from_parts(11, 0), &mut properties);
    assert_eq!(verdict, Err(ProcessMessageError::Unsupported));
    assert_eq!(instructions, vec![5, 6]);
    assert_eq!(properties.weight_credit, Weight::from_parts(10, 10));
}

#[test]
fn pair_denial_returns_the_first_reason() {
    let chain = (agree(), (refuse(ProcessMessageError::Corrupt), agree()));
    let mut instructions = vec![1];
    let mut properties = Properties::new(Weight::zero());
    let verdict = chain.deny_execution(&"alice", &mut instructions, Weight::zero(), &mut properties);
    assert_eq!(verdict, Err(ProcessMessageError::Corrupt));
    assert_eq!(chain.0.calls.get(), 1);
    assert_eq!((chain.1).0.calls.get(), 1);
    assert_eq!((chain.1).1.calls.get(), 0);
}

#[test]
fn pair_denial_accepts_when_both_accept() {
    let chain = (agree(), agree());
    let mut instructions = vec![1];
    let mut properties = Properties::new(Weight::zero());
    let verdict = chain.deny_execution(&"alice", &mut instructions, Weight::zero(), &mut properties);
    assert_eq!(verdict, Ok(()));
    assert_eq!(chain.0.calls.get(), 1);
    assert_eq!(chain.1.calls.get(), 1);
}

#[test]
fn pair_suspension_stops_at_the_first_true() {
    let chain = (flag(false), (flag(true), flag(false)));
    let mut instructions = vec![1];
    let mut properties = Properties::new(Weight::zero());
    assert!(chain.is_suspended(&"alice", &mut instructions, Weight::zero(), &mut properties));
    assert_eq!(chain.0.calls.get(), 1);
    assert_eq!((chain.1).0.calls.get(), 1);
    assert_eq!((chain.1).1.calls.get(), 0);
}

#[test]
fn pair_suspension_is_false_when_both_are() {
    let chain = (flag(false), flag(false));
    let mut instructions = vec![1];
    let mut properties = Properties::new(Weight::zero());
    assert!(!chain.is_suspended(&"alice", &mut instructions, Weight::zero(), &mut properties));
    assert_eq!(chain.0.calls.get(), 1);
    assert_eq!(chain.1.calls.get(), 1);
}
