pub mod adblock;
pub mod loader;
pub mod watcher;

pub use adblock::{FilterAction, RuleSet};
