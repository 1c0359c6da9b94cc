//! A small command-line command registry and dispatcher.
//!
//! A host program registers named, possibly multi-word sub-commands, each
//! declaring a set of typed options, and then hands the raw argument vector
//! to the dispatcher, which resolves the matching sub-command, extracts its
//! options with best-effort type coercion, and invokes it.

pub mod coerce;
pub mod dispatch;
pub mod flags;
pub mod help;
pub mod laws;
pub mod numbers;
pub mod options;
pub mod text;

pub use dispatch::Command;
pub use dispatch::CommandError;
pub use dispatch::CommandManager;
pub use flags::find_opt;
pub use options::Opt;
pub use options::OptValue;
