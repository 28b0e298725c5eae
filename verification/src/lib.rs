//! A barrier in front of a message executor: ordered chains of independent
//! policies that decide whether a message is denied, whether the executor is
//! suspended for it, and whether it is admitted.
//!
//! Every policy of a chain is shown the sender, the message's instructions,
//! the caller's weight estimate and a decision context. It may rewrite the
//! instructions and the context; nothing is rolled back between trials.
//!
//! A caller will as a rule ask the denial chain first, then the suspension
//! chain, then the admission chain; each chain stands by itself. An
//! observer can be handed to a chain and is told of every trial.

pub mod admission;
pub mod context;
pub mod denial;
pub mod suspension;

pub use admission::{AdmissionChain, ShouldExecute};
pub use context::{
    ProcessMessageError, Properties, Severity, Snapshot, Trial, TrialEvent, TrialNote,
    TrialObserver, Weight, XcmHash,
};
pub use denial::{DenialChain, DenyExecution};
pub use suspension::{CheckSuspension, SuspensionChain};
