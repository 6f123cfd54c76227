//! Where a repo is hosted.
use happyview::spaces::host_mode::{can_transition, HostMode};

#[test]
fn migration_cannot_skip_the_migrating_state() {
    assert!(!can_transition(HostMode::Polyfill, HostMode::Native));
}

#[test]
fn a_failed_migration_returns_to_polyfill() {
    assert!(can_transition(HostMode::Migrating, HostMode::Polyfill));
}

#[test]
fn native_can_fall_back_because_the_local_copy_is_retained() {
    assert!(can_transition(HostMode::Native, HostMode::Polyfill));
}

#[test]
fn a_mode_never_transitions_to_itself() {
    for mode in [HostMode::Polyfill, HostMode::Migrating, HostMode::Native] {
        assert!(!can_transition(mode, mode), "{}", mode.to_string());
    }
}

#[test]
fn an_unreadable_mode_reads_as_polyfill() {
    assert_eq!(HostMode::parse_or_default("native"), HostMode::Native);
    assert_eq!(HostMode::parse_or_default("migrating"), HostMode::Migrating);
    assert_eq!(HostMode::parse_or_default("polyfill"), HostMode::Polyfill);
    assert_eq!(HostMode::parse_or_default(""), HostMode::Polyfill);
    assert_eq!(HostMode::parse_or_default("nonsense"), HostMode::Polyfill);
}

#[test]
fn happyview_owns_writes_until_the_handoff_verifies() {
    assert!(HostMode::Polyfill.is_authoritative_here());
    // Still ours mid-migration: the PDS copy is not trusted until verified.
    assert!(HostMode::Migrating.is_authoritative_here());
    assert!(!HostMode::Native.is_authoritative_here());
}

#[test]
fn the_stored_form_round_trips() {
    for mode in [HostMode::Polyfill, HostMode::Migrating, HostMode::Native] {
        assert_eq!(HostMode::parse_or_default(mode.as_str()), mode);
    }
}

#[test]
fn a_repo_starts_out_hosted_here() {
    assert_eq!(HostMode::default(), HostMode::Polyfill);
    assert!(can_transition(HostMode::Polyfill, HostMode::Migrating));
    assert!(can_transition(HostMode::Migrating, HostMode::Native));
    assert!(!can_transition(HostMode::Native, HostMode::Migrating));
}
