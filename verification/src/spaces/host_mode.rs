//! Where a permissioned repo lives, and how it moves.
//!
//! The spaces storage here is a polyfill for PDSes that do not support spaces.
//! Each repo moves off it independently, so the mode is per `(space, author)`
//! rather than per user. A user may be native in one space and polyfill in
//! another, since the space authority's support is independent of their own.
use vstd::prelude::*;

use crate::text;

verus! {

/// Which host is authoritative for a repo.
#[derive(Debug, Clone, Copy, PartialEq, Eq, Structural)]
pub enum HostMode {
    /// This service is the repo host and the source of truth. Every repo starts
    /// here.
    Polyfill,
    /// Records are being replayed into the user's PDS. This service is still
    /// authoritative: the handoff has not verified yet.
    Migrating,
    /// The user's PDS is the source of truth; this service indexes it.
    Native,
}

impl Default for HostMode {
    fn default() -> (mode: HostMode)
        ensures
            mode == HostMode::Polyfill,
    {
        HostMode::Polyfill
    }
}

impl HostMode {
    /// The stored form of a mode.
    pub open spec fn text(self) -> Seq<char> {
        match self {
            HostMode::Polyfill => "polyfill"@,
            HostMode::Migrating => "migrating"@,
            HostMode::Native => "native"@,
        }
    }

    /// The mode that a stored form stands for. Every other text stands for
    /// `Polyfill`.
    pub open spec fn of_text(value: Seq<char>) -> HostMode {
        if value == "migrating"@ {
            HostMode::Migrating
        } else if value == "native"@ {
            HostMode::Native
        } else {
            HostMode::Polyfill
        }
    }

    /// The stored form of a mode.
    pub fn as_str(self) -> (word: &'static str)
        ensures
            word@ == self.text(),
    {
        match self {
            HostMode::Polyfill => "polyfill",
            HostMode::Migrating => "migrating",
            HostMode::Native => "native",
        }
    }

    /// Reads a stored mode, falling back to `Polyfill`.
    ///
    /// An unreadable mode must not be taken for `Native`, which would point the
    /// source of truth at a PDS that may hold nothing.
    pub fn parse_or_default(value: &str) -> (mode: HostMode)
        ensures
            mode == HostMode::of_text(value@),
    {
        if text::same_text(value, "migrating") {
            HostMode::Migrating
        } else if text::same_text(value, "native") {
            HostMode::Native
        } else {
            HostMode::Polyfill
        }
    }

    /// Whether this service still owns the repo's writes.
    pub fn is_authoritative_here(self) -> (yes: bool)
        ensures
            yes == (self != HostMode::Native),
    {
        match self {
            HostMode::Polyfill | HostMode::Migrating => true,
            HostMode::Native => false,
        }
    }

    /// The text of a mode, which is its stored form.
    pub fn to_string(&self) -> (word: String)
        ensures
            word@ == self.text(),
    {
        self.as_str().to_owned()
    }
}

/// The mode changes that the migration flow makes.
///
/// A native repo can fall back, because migration keeps the local copy. A
/// polyfill repo cannot become native at once: that would make the PDS
/// authoritative without the verify step.
pub open spec fn transition_allowed(from: HostMode, to: HostMode) -> bool {
    match from {
        HostMode::Polyfill => to == HostMode::Migrating,
        HostMode::Migrating => to == HostMode::Native || to == HostMode::Polyfill,
        HostMode::Native => to == HostMode::Polyfill,
    }
}

/// Whether a mode change is one the migration flow can make.
pub fn can_transition(from: HostMode, to: HostMode) -> (yes: bool)
    ensures
        yes == transition_allowed(from, to),
{
    match (from, to) {
        (HostMode::Polyfill, HostMode::Migrating) => true,
        (HostMode::Migrating, HostMode::Native) => true,
        (HostMode::Migrating, HostMode::Polyfill) => true,
        (HostMode::Native, HostMode::Polyfill) => true,
        _ => false,
    }
}

/// A stored mode reads back as itself.
pub proof fn law_stored_mode_round_trip(mode: HostMode)
    ensures
        HostMode::of_text(mode.text()) == mode,
{
    reveal_strlit("polyfill");
    reveal_strlit("migrating");
    reveal_strlit("native");
    assert("polyfill"@.len() != "migrating"@.len());
    assert("polyfill"@.len() != "native"@.len());
    assert("migrating"@.len() != "native"@.len());
}

/// Only the text `native` is read as the mode in which the PDS is the source of
/// truth.
pub proof fn law_only_native_reads_as_native(value: Seq<char>)
    ensures
        HostMode::of_text(value) == HostMode::Native ==> value == "native"@,
{
}

/// No mode changes to itself.
pub proof fn law_no_self_transition(mode: HostMode)
    ensures
        !transition_allowed(mode, mode),
{
}

/// A sequence of allowed mode changes.
pub open spec fn is_history(modes: Seq<HostMode>) -> bool {
    forall|i: int| 0 <= i < modes.len() - 1 ==> transition_allowed(modes[i], #[trigger] modes[i + 1])
}

/// A repo that starts here and becomes native was migrating just before: no
/// history reaches `Native` without the step that verifies the handoff.
pub proof fn law_native_only_after_migrating(modes: Seq<HostMode>, i: int)
    requires
        is_history(modes),
        modes.len() > 0,
        modes[0] == HostMode::Polyfill,
        0 <= i < modes.len(),
        modes[i] == HostMode::Native,
    ensures
        i > 0,
        modes[i - 1] == HostMode::Migrating,
{
    assert(i > 0);
    assert(transition_allowed(modes[i - 1], modes[i - 1 + 1]));
}

/// Every mode can be left for `Polyfill` in one step, so that a repo can always
/// return to where it started.
pub proof fn law_every_other_mode_falls_back(mode: HostMode)
    requires
        mode != HostMode::Polyfill,
    ensures
        transition_allowed(mode, HostMode::Polyfill),
{
}

/// A repo leaves this service for its user's PDS in two steps, and in no other way:
/// it migrates from here, and becomes native from there.
pub proof fn law_how_repos_move(from: HostMode, to: HostMode)
    ensures
        transition_allowed(HostMode::Polyfill, HostMode::Migrating),
        transition_allowed(HostMode::Migrating, HostMode::Native),
        transition_allowed(from, HostMode::Migrating) ==> from == HostMode::Polyfill,
        transition_allowed(from, HostMode::Native) ==> from == HostMode::Migrating,
        transition_allowed(from, HostMode::Polyfill) ==> from != HostMode::Polyfill,
{
}

/// Whatever is not the text of another mode is read as the one that every repo
/// starts in.
pub proof fn law_unreadable_modes_stay_here(value: Seq<char>)
    ensures
        value != "migrating"@ && value != "native"@ ==> HostMode::of_text(value) == HostMode::Polyfill,
{
}

} // verus!
