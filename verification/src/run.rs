//! What a run does once it knows which snapshots it would remove.

use crate::structs::{Config, ConfigView};
use vstd::prelude::*;

verus! {

/// The next thing a run does with the snapshots it has found.
#[derive(Debug, Clone, Copy, PartialEq, Eq, Structural)]
pub enum Action {
    /// A dry run: nothing is destroyed.
    Nothing,
    /// There is nothing to destroy: the pool is clean already.
    ReportClean,
    /// The snapshots are destroyed without asking.
    Destroy,
    /// The user is asked first, and the snapshots are destroyed if they
    /// consent.
    Ask,
}

/// The action for a configuration and a number of snapshots found. A dry
/// run destroys nothing, whatever else is set; with nothing found there is
/// nothing to ask.
pub open spec fn action_for(config: ConfigView, found: nat) -> Action {
    if config.dry_run {
        Action::Nothing
    } else if found == 0 {
        Action::ReportClean
    } else if config.no_confirm {
        Action::Destroy
    } else {
        Action::Ask
    }
}

/// What the run does next, given how many snapshots it found to remove.
pub fn next_action(config: &Config, found: usize) -> (r: Action)
    ensures
        r == action_for(config@, found as nat),
{
    if config.should_dry_run() {
        Action::Nothing
    } else if found == 0 {
        Action::ReportClean
    } else if config.no_confirm() {
        Action::Destroy
    } else {
        Action::Ask
    }
}

} // verus!
