//! What the endpoints of spaces answer with.
use happyview::crypto::P256SigningKey;
use happyview::json::Json;
use happyview::spaces::answers::{
    create_invite, get_delegation_token, get_space, get_space_credential, list_blobs, list_invites,
    list_records, list_repo_ops, list_spaces,
};
use happyview::spaces::host_mode::HostMode;
use happyview::spaces::native_client::get_latest_commit;
use happyview::spaces::routes::{latest_commit_json, state_commit};
use happyview::spaces::service::commit_write;
use happyview::spaces::types::{
    AppAccess, MemberAccess, Policy, RepoState, Space, SpaceConfig, SpaceInvite, SpaceRecord,
};

fn a_space() -> Space {
    Space {
        id: "sp1".into(),
        did: "did:plc:owner".into(),
        authority_did: "did:plc:owner".into(),
        creator_did: "did:plc:owner".into(),
        type_nsid: "com.example.forum".into(),
        skey: "main".into(),
        display_name: None,
        description: None,
        read_policy: Policy::Public,
        write_policy: Policy::MemberList,
        app_access: AppAccess::Open,
        config: SpaceConfig::default(),
        revision: None,
        created_at: String::new(),
        updated_at: String::new(),
    }
}

#[test]
fn lists_show_what_they_list() {
    let record = SpaceRecord {
        uri: "u".into(),
        space_id: "sp1".into(),
        author_did: "did:plc:u".into(),
        collection: "c".into(),
        rkey: "k".into(),
        record: Json::Bool(true),
        cid: "bafy".into(),
        indexed_at: "now".into(),
    };
    assert_eq!(
        list_records(&vec![record], &Some("next".into())).to_text(),
        r#"{"records":[{"collection":"c","rkey":"k","cid":"bafy"}],"cursor":"next"}"#
    );
    assert_eq!(
        list_repo_ops(vec![Json::Unsigned(1)], &None, None).to_text(),
        r#"{"ops":[1],"cursor":null,"commit":null}"#
    );
    assert_eq!(
        list_blobs(&vec!["a".into(), "b".into()], None).to_text(),
        r#"{"cids":["a","b"]}"#
    );
    assert_eq!(
        list_blobs(&vec!["a".into()], Some("a".into())).to_text(),
        r#"{"cids":["a"],"cursor":"a"}"#
    );
    assert_eq!(
        list_spaces(&vec![("at://s".into(), true)], &None).to_text(),
        r#"{"spaces":[{"uri":"at://s","isOwner":true}],"cursor":null}"#
    );
}

#[test]
fn a_space_is_shown_with_its_configuration() {
    assert_eq!(
        get_space(&a_space(), Json::Null).to_text(),
        concat(&[
            r#"{"uri":"at://did:plc:owner/space/com.example.forum/main","space":null,"config":{"#,
            r#""$type":"com.atproto.simplespace.defs#spaceConfig","#,
            r#""readPolicy":{"$type":"com.atproto.simplespace.defs#publicPolicy"},"#,
            r#""writePolicy":{"$type":"com.atproto.simplespace.defs#memberListPolicy"},"#,
            r#""appAccess":{"$type":"com.atproto.simplespace.defs#open"}}}"#,
        ])
    );
}

fn concat(parts: &[&str]) -> String {
    parts.concat()
}

#[test]
fn an_invitation_shows_its_token_once() {
    let invite = SpaceInvite {
        id: "i".into(),
        space_id: "sp1".into(),
        token_hash: "hash".into(),
        created_by: "did:plc:owner".into(),
        access: MemberAccess::reader(),
        max_uses: Some(3),
        uses: 1,
        expires_at: None,
        revoked: false,
        created_at: "then".into(),
    };
    assert_eq!(
        create_invite(&invite, "token".into(), Json::Text("read".into())).to_text(),
        r#"{"inviteId":"i","token":"token","access":"read","maxUses":3,"expiresAt":null}"#
    );
    let listed = list_invites(&vec![(invite, Json::Text("read".into()))]).to_text();
    assert_eq!(
        listed,
        r#"{"invites":[{"id":"i","access":"read","maxUses":3,"uses":1,"expiresAt":null,"revoked":false,"createdBy":"did:plc:owner","createdAt":"then"}]}"#
    );
}

#[test]
fn tokens_come_with_their_expiry() {
    assert_eq!(
        get_delegation_token("t".into(), "e".into()).to_text(),
        r#"{"delegationToken":"t","expiresAt":"e"}"#
    );
    assert_eq!(
        get_space_credential("t".into(), "e".into()).to_text(),
        r#"{"credential":"t","expiresAt":"e"}"#
    );
}

#[test]
fn a_commit_that_is_shown_is_the_commit_that_is_read() {
    let key = P256SigningKey::from_slice(&[0x71; 32]).unwrap();
    let state = RepoState {
        space_id: "sp1".into(),
        author_did: "did:plc:u".into(),
        lthash_state: vec![],
        rev: None,
        hash: None,
        ikm: None,
        sig: None,
        mac: None,
        host_mode: HostMode::Polyfill,
        sync_cursor: None,
    };
    let sealed = commit_write(state, &a_space(), "did:plc:u", "3rev", vec![1], &[5; 32], &key).unwrap();
    let body = Json::from_slice(&latest_commit_json(&sealed).unwrap().to_vec()).unwrap();
    let read = get_latest_commit(&body).unwrap();
    let held = state_commit(sealed).unwrap();
    assert_eq!(read.ver, held.ver);
    assert_eq!(read.hash, held.hash);
    assert_eq!(read.ikm, held.ikm);
    assert_eq!(read.sig, held.sig);
    assert_eq!(read.mac, held.mac);
    assert_eq!(read.rev, held.rev);
}
