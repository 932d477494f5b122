//! Tails a growing log file, reassembles the lines appended to it, matches
//! each line against configured rules and turns every match into an alert.

pub mod alert;
pub mod config;
pub mod error;
pub mod expression;
pub mod lines;
pub mod rules;
pub mod tail;
pub mod watch;

pub use alert::{Alert, Urgency};
pub use config::Config;
pub use error::{AtlasError, ConfigProblem};
pub use lines::LineSplitter;
pub use rules::{MatchEvent, MatchKind, PatternSet, Rule};
pub use tail::TailState;
pub use watch::{Action, FsEvent, Phase, WatchLoop};
