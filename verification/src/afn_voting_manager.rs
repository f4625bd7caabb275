use vstd::prelude::*;
use crate::text::{str_eq, str_to_lowercase, to_lowercase_spec};

verus! {

/// How a monitor votes.
#[derive(Debug, PartialEq, Eq, Clone, Copy, Structural)]
pub enum VotingMode {
    /// Votes are sent.
    Active,
    /// Votes are decided but not sent.
    DryRun,
    /// Votes are decided at once, without delay, and not sent.
    Passive,
}

/// Whether the vote workers send the votes they decide: only in the active
/// mode.
pub fn sends_votes(mode: VotingMode) -> (r: bool)
    ensures
        r == (mode == VotingMode::Active),
{
    match mode {
        VotingMode::Active => true,
        VotingMode::DryRun | VotingMode::Passive => false,
    }
}

/// Why a text names no voting mode.
#[derive(Debug, Clone, Copy, PartialEq, Eq, Structural)]
pub struct UnknownVotingMode;

/// The voting mode that a lower-cased text names.
pub open spec fn voting_mode_from_lower(s: Seq<char>) -> Option<VotingMode> {
    if s == "active"@ {
        Some(VotingMode::Active)
    } else if s == "dryrun"@ {
        Some(VotingMode::DryRun)
    } else if s == "passive"@ {
        Some(VotingMode::Passive)
    } else {
        None
    }
}

impl VotingMode {
    /// The voting mode that `s` names, in any case.
    pub fn from_str(s: &str) -> (r: Result<VotingMode, UnknownVotingMode>)
        ensures
            match voting_mode_from_lower(to_lowercase_spec(s@)) {
                Some(m) => r == Ok::<VotingMode, UnknownVotingMode>(m),
                None => r == Err::<VotingMode, UnknownVotingMode>(UnknownVotingMode),
            },
    {
        let lower = str_to_lowercase(s);
        let l = lower.as_str();
        if str_eq(l, "active") {
            Ok(VotingMode::Active)
        } else if str_eq(l, "dryrun") {
            Ok(VotingMode::DryRun)
        } else if str_eq(l, "passive") {
            Ok(VotingMode::Passive)
        } else {
            Err(UnknownVotingMode)
        }
    }
}

} // verus!
