//! Core of a flakiness tester: classification of a command's exit status,
//! the tally of outcomes over many runs, the text of the progress and final
//! reports, and the state machine that drives a fixed number of runs.

pub mod decimal;
pub mod driver;
pub mod outcome;
pub mod summary;

pub use decimal::{decimal_string, signed_decimal_string};
pub use driver::{Action, Driver, DriverState};
pub use outcome::{classify, RunOutcome, ShowOutput};
pub use summary::StatusSummary;
