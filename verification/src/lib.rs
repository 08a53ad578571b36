//! A wait-free simulator for normalized lock-free algorithms, as a
//! deterministic, step-bounded engine.
//!
//! An algorithm presents each operation as a generator of compare-and-swap
//! descriptors, an in-order executor and a wrap-up. The simulator first tries
//! an operation optimistically; under contention it publishes an operation
//! record to a FIFO help queue, and every caller advances the record at the
//! front of that queue before and while pursuing its own.
//!
//! Every call performs a bounded number of steps. A caller whose record is
//! not yet completed when its share is spent gets a ticket and resumes later;
//! callers that arrive in the meantime help the record along.

pub mod algorithm;
pub mod contention;
pub mod help_queue;
pub mod laws;
pub mod record;
pub mod simulator;

pub use algorithm::{CasDescriptor, CasDescriptors, NormalizedLockFree};
pub use contention::{ContentionMeasure, CONTENTION_THRESHOLD, RETRY_THRESHOLD};
pub use help_queue::HelpQueue;
pub use record::{OperationRecord, OperationRecordBox, OperationState};
pub use simulator::{judge, judged, Attempt, Progress, Trial, WaitFreeSimulator};
