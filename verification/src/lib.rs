//! Verified core of a deadline-aware task executor and of the bookkeeping
//! behind a task-intelligence monitor.
//!
//! - [`deadline_executor`]: a task executor with a conservation budget
//!   (`active ≤ budget`), FIFO queueing and deadline expiry.
//! - [`clock`]: the executor's notion of time.
//! - [`monitor`]: bounded per-task throughput histories and the plan of which
//!   task pairs an analysis compares.
//! - [`phase`]: runtime phases and their classification.
//! - [`report`]: counting behind report summaries.
//! - [`matrix`]: square matrices and task dependency matrices.

pub mod clock;
pub mod deadline_executor;
pub mod matrix;
pub mod monitor;
pub mod phase;
pub mod report;

pub use clock::Instant;
pub use deadline_executor::{BudgetReport, DeadlineExecutor, JoinHandle, TaskStatus};
pub use matrix::{Matrix, TaskId};
pub use monitor::{PairPlan, ThroughputBuffer, TaskIntelligenceMonitor};
pub use phase::{DivergenceBand, RuntimePhase};
