//! Concurrent endpoint-availability checking: the retry policy applied to
//! each target, the bounded dispatch of targets to probing units, the
//! collection of exactly one result per target, and the parsing of the
//! run's settings. The network requests, the clock and the threads are
//! driven by the caller, which feeds what they produce into these machines.
pub mod outcome;
pub mod retry;
pub mod dispatch;
pub mod config;

pub use outcome::{probe_outcome, Outcome, ProbeResult};
pub use retry::RetryState;
pub use dispatch::{Dispatcher, Slot};
pub use config::{parse_setting, Config, ConfigError};
