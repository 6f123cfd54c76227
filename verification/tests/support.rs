//! Whether a PDS serves spaces, and rebuilding repo states.
use happyview::crypto::P256SigningKey;
use happyview::json::Json;
use happyview::spaces::commit::{verify_commit, SpaceVerifyingKey};
use happyview::spaces::host_mode::HostMode;
use happyview::spaces::pds_support::{
    all_required_names, get_support, get_support_at, is_fresh, is_fresh_at, make_row, method_url,
    missing_methods, probe, read_descriptor, read_row, DetectionTier, SpaceSupport, SupportRow,
    NEGATIVE_TTL_SECS, POSITIVE_TTL_SECS,
};
use happyview::spaces::rebuild::{
    rebuild_edits, rebuild_is_due, rebuild_repo_state, run_commit_format_rebuild, RebuildStep,
    RecordKey, RevPolicy,
};
use happyview::spaces::routes::state_commit;
use happyview::spaces::types::{AppAccess, Policy, RepoState, Space, SpaceConfig};

const PDS: &str = "https://pds.example";
const NOW: &str = "2026-01-01T00:00:00+00:00";
const NOW_SECS: i64 = 1_767_225_600;

fn descriptor(methods: &[String]) -> Json {
    Json::Object(vec![
        ("roles".to_string(), Json::List(vec![Json::Text("pds".to_string())])),
        (
            "methods".to_string(),
            Json::List(
                methods
                    .iter()
                    .map(|m| {
                        Json::Object(vec![
                            (
                                "$type".to_string(),
                                Json::Text("community.lexicon.service.describe#nsid".to_string()),
                            ),
                            ("value".to_string(), Json::Text(m.clone())),
                        ])
                    })
                    .collect(),
            ),
        ),
    ])
}

/// What is concluded from a descriptor.
fn described(methods: &[String]) -> SpaceSupport {
    let methods = read_descriptor(&descriptor(methods)).expect("it is one");
    probe(PDS, Some(&methods), None, None, NOW)
}

#[test]
fn a_descriptor_listing_the_space_methods_is_a_confident_yes() {
    let support = described(&all_required_names());
    assert!(support.supported);
    assert_eq!(support.tier, DetectionTier::Descriptor);
    assert!(support.missing.is_empty());
    assert_eq!(support.pds, PDS);
    assert_eq!(support.checked_at, NOW);
}

#[test]
fn a_descriptor_omitting_the_space_methods_is_a_confident_no() {
    let support = described(&["com.atproto.sync.getRepo".to_string()]);
    assert!(!support.supported);
    assert_eq!(support.tier, DetectionTier::Descriptor);
    assert_eq!(support.missing, all_required_names());
}

#[test]
fn an_alternate_spelling_satisfies_a_required_method() {
    let methods: Vec<String> = all_required_names()
        .into_iter()
        .map(|m| match m.as_str() {
            "com.atproto.simplespace.putMember" => "com.atproto.simplespace.addMember".to_string(),
            "com.atproto.space.getLatestCommit" => "com.atproto.space.getRepoState".to_string(),
            _ => m,
        })
        .collect();
    assert!(described(&methods).supported);
    assert!(missing_methods(&methods).is_empty());
}

#[test]
fn a_malformed_descriptor_body_falls_through_rather_than_denying() {
    assert!(read_descriptor(&Json::parse(r#"{"methods":"all"}"#).unwrap()).is_none());
    assert!(read_descriptor(&Json::parse("[]").unwrap()).is_none());
    let support = probe(PDS, None, Some(401), Some(404), NOW);
    assert!(support.supported);
    assert_eq!(support.tier, DetectionTier::Probe);
}

#[test]
fn a_probe_matching_its_control_is_inconclusive() {
    let support = probe(PDS, None, Some(401), Some(401), NOW);
    assert!(!support.supported);
    assert_eq!(support.tier, DetectionTier::Probe);
}

#[test]
fn a_404_on_the_space_method_is_a_no() {
    assert!(!probe(PDS, None, Some(404), Some(501), NOW).supported);
}

#[test]
fn a_400_on_the_space_method_is_a_no() {
    assert!(!probe(PDS, None, Some(400), Some(404), NOW).supported);
}

#[test]
fn an_unreachable_host_is_unsupported_not_an_error() {
    for (real, control) in [(None, None), (Some(401), None), (None, Some(404))] {
        let support = probe(PDS, None, real, control, NOW);
        assert!(!support.supported);
        assert_eq!(support.tier, DetectionTier::Unreachable);
        assert_eq!(support.missing, all_required_names());
    }
}

#[test]
fn a_fresh_positive_is_served_from_cache() {
    let cached = || Some(SpaceSupport::supported(PDS, DetectionTier::Probe, NOW));
    assert!(get_support_at(cached(), false, NOW_SECS + 3599, 0).is_some());
    assert!(get_support_at(cached(), false, NOW_SECS + 3600, 0).is_none());
    assert!(get_support_at(None, false, NOW_SECS, 0).is_none());
}

#[test]
fn a_negative_expires_far_sooner_than_a_positive() {
    assert!(NEGATIVE_TTL_SECS < POSITIVE_TTL_SECS);
    assert!(is_fresh_at(NOW, true, NOW_SECS + 300, 0));
    assert!(!is_fresh_at(NOW, false, NOW_SECS + 300, 0));
    assert!(is_fresh_at(NOW, false, NOW_SECS + 299, 999_999_999));
    // An answer from the future, or with no readable time, is no answer.
    assert!(!is_fresh_at(NOW, true, NOW_SECS - 1, 0));
    assert!(!is_fresh_at("yesterday", true, NOW_SECS, 0));
    assert!(!is_fresh("1970-01-01T00:00:00Z", true));
}

#[test]
fn force_bypasses_a_fresh_answer() {
    let cached = || Some(SpaceSupport::supported(PDS, DetectionTier::Probe, NOW));
    assert!(get_support_at(cached(), true, NOW_SECS, 0).is_none());
    assert!(get_support(cached(), true).is_none());
}

#[test]
fn an_answer_is_read_as_it_was_stored() {
    let support = described(&["com.atproto.space.createRecord".to_string()]);
    let back = read_row(PDS, make_row(&support));
    assert_eq!(back.supported, support.supported);
    assert_eq!(back.tier, support.tier);
    assert_eq!(back.missing, support.missing);
    assert_eq!(back.checked_at, support.checked_at);
    let odd = SupportRow {
        supported: 1,
        tier: "guess".into(),
        missing: b"not json".to_vec(),
        checked_at: NOW.into(),
    };
    let read = read_row(PDS, odd);
    assert!(read.supported && read.missing.is_empty());
    assert_eq!(read.tier, DetectionTier::Probe);
    assert_eq!(
        method_url("https://pds.example/", "a.b.c"),
        "https://pds.example/xrpc/a.b.c"
    );
    for tier in [DetectionTier::Descriptor, DetectionTier::Probe, DetectionTier::Unreachable] {
        assert_eq!(DetectionTier::parse(tier.as_str()), Some(tier));
    }
}

fn a_space() -> Space {
    Space {
        id: "s".into(),
        did: "did:plc:auth".into(),
        authority_did: "did:plc:auth".into(),
        creator_did: "did:plc:auth".into(),
        type_nsid: "com.example.forum".into(),
        skey: "main".into(),
        display_name: None,
        description: None,
        read_policy: Policy::MemberList,
        write_policy: Policy::MemberList,
        app_access: AppAccess::Open,
        config: SpaceConfig::default(),
        revision: None,
        created_at: String::new(),
        updated_at: String::new(),
    }
}

fn state(rev: Option<&str>) -> RepoState {
    RepoState {
        space_id: "s".into(),
        author_did: "did:plc:u".into(),
        lthash_state: vec![],
        rev: rev.map(str::to_string),
        hash: None,
        ikm: None,
        sig: None,
        mac: None,
        host_mode: HostMode::Polyfill,
        sync_cursor: None,
    }
}

#[test]
fn a_rebuild_keeps_or_advances_the_revision() {
    let key = P256SigningKey::from_slice(&[0x71; 32]).unwrap();
    let space = a_space();
    let rebuild = |space: Option<&Space>, rev: Option<&str>, policy: RevPolicy| {
        rebuild_repo_state(
            space,
            state(rev),
            "did:plc:u",
            vec![7; 4],
            &[6; 32],
            &key,
            policy,
            "3new".into(),
        )
        .unwrap()
    };
    let kept = rebuild(Some(&space), Some("3old"), RevPolicy::Preserve).unwrap();
    assert_eq!(kept.state.rev.as_deref(), Some("3old"));
    assert_eq!(kept.space_rev, None);
    let commit = state_commit(kept.state).unwrap();
    let verifier = SpaceVerifyingKey::P256(key.public_key());
    let uri = "at://did:plc:auth/space/com.example.forum/main";
    assert!(verify_commit(&commit, uri, "did:plc:u", &verifier).is_ok());
    let advanced = rebuild(Some(&space), Some("3old"), RevPolicy::Advance).unwrap();
    assert_eq!(advanced.state.rev.as_deref(), Some("3new"));
    assert_eq!(advanced.space_rev.as_deref(), Some("3new"));
    assert!(rebuild(Some(&space), None, RevPolicy::Preserve).is_none());
    assert!(rebuild(None, Some("3old"), RevPolicy::Advance).is_none());
    assert!(rebuild_is_due(&None));
    assert!(!rebuild_is_due(&Some("2026".into())));
}

#[test]
fn the_format_rebuild_runs_once() {
    let key = P256SigningKey::from_slice(&[0x71; 32]).unwrap();
    let space = a_space();
    let repos = vec![("s".into(), "did:plc:u".into()), ("gone".into(), "did:plc:v".into())];
    let run = run_commit_format_rebuild(&None, repos).unwrap();
    let first = match run.next("now") {
        RebuildStep::Turn(turn) => turn,
        RebuildStep::Done(_) => panic!("two repos are left"),
    };
    assert_eq!(first.repo(), ("s", "did:plc:u"));
    let (after, run) =
        first.rebuild(Some(&space), state(Some("3old")), vec![7; 4], &[6; 32], &key).unwrap();
    assert_eq!(after.unwrap().rev.as_deref(), Some("3old"));
    let second = match run.next("now") {
        RebuildStep::Turn(turn) => turn,
        RebuildStep::Done(_) => panic!("a repo is left"),
    };
    assert_eq!(second.repo(), ("gone", "did:plc:v"));
    let (after, run) = second.rebuild(None, state(Some("3old")), vec![], &[6; 32], &key).unwrap();
    assert!(after.is_none());
    let finished = match run.next("2026-01-01") {
        RebuildStep::Done(finished) => finished,
        RebuildStep::Turn(_) => panic!("every repo had its turn"),
    };
    assert_eq!(finished.rebuilt, 1);
    assert_eq!(finished.marker_key, "space_commit_format_rebuild_completed_at");
    assert_eq!(finished.marker, "2026-01-01");
    assert!(run_commit_format_rebuild(&Some(finished.marker), vec![]).is_none());
}

#[test]
fn a_rebuild_adds_each_record_once() {
    let records = vec![
        RecordKey { collection: "c".into(), rkey: "1".into(), cid: "a".into() },
        RecordKey { collection: "c".into(), rkey: "2".into(), cid: "b".into() },
    ];
    let edits = rebuild_edits(&records);
    assert_eq!(edits.len(), 2);
    assert!(edits.iter().all(|e| e.added));
    assert_eq!((edits[1].rkey.as_str(), edits[1].cid.as_str()), ("2", "b"));
}
