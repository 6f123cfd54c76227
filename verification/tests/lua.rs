//! What scripts can do.
use happyview::auth::Claims;
use happyview::error::AppError;
use happyview::json::Json;
use happyview::lua::jobs_api::{create_job, job_type_is_valid, JobsCaller};
use happyview::lua::spaces_api::{
    delete_record, found_or_nothing, member_access_from_str, member_words, nullable, put_record,
    record_entry, requested_access, require_caller, require_spaces, require_spaces_caller, required, write_record,
    PatchOption, SPACES_DISABLED_MSG, SPACES_NO_CALLER_MSG,
};
use happyview::lua::xrpc_api::{
    params_of, params_to_query_string, procedure_claims, route_procedure, route_query, CallTarget,
    LexiconType,
};
use happyview::spaces::record_writes::WriteOp;
use happyview::spaces::types::{MemberAccess, ResolvedMember, SpaceRecord};

#[test]
fn claims_internal_has_no_client_key() {
    let claims = Claims::internal("did:plc:test".into());
    assert_eq!(claims.did(), "did:plc:test");
    assert!(claims.client_key().is_none());
}

#[test]
fn params_to_query_string_empty() {
    let params = vec![];
    assert_eq!(params_to_query_string(&params), "");
}

#[test]
fn params_to_query_string_encodes_values() {
    let mut params: Vec<(String, Json)> = vec![];
    params.push(("handle".into(), Json::Text("user.bsky.social".into())));
    let qs = params_to_query_string(&params);
    assert!(qs.contains("handle=user.bsky.social"));
}

#[test]
fn params_to_query_string_url_encodes_special_chars() {
    let mut params: Vec<(String, Json)> = vec![];
    params.push((
        "uri".into(),
        Json::Text("at://did:plc:abc/col/rkey".into()),
    ));
    let qs = params_to_query_string(&params);
    assert!(qs.contains("uri=at%3A%2F%2Fdid%3Aplc%3Aabc%2Fcol%2Frkey"));
}

#[test]
fn params_are_the_members_of_an_object() {
    assert!(params_of(None).is_empty());
    let params = params_of(Some(Json::parse(r#"{"handle":"user.bsky.social","limit":10}"#).unwrap()));
    assert_eq!(
        params,
        vec![
            ("handle".to_string(), Json::Text("user.bsky.social".into())),
            ("limit".to_string(), Json::Unsigned(10)),
        ]
    );
    assert_eq!(params_to_query_string(&params), "handle=user.bsky.social&limit=10");
}

#[test]
fn methods_are_called_as_what_they_are() {
    assert!(matches!(route_query("a.b.c", Some(LexiconType::Query)), Ok(CallTarget::Local)));
    assert!(matches!(route_query("a.b.c", None), Ok(CallTarget::Proxy)));
    assert!(matches!(
        route_query("a.b.c", Some(LexiconType::Procedure)),
        Err(AppError::BadRequest(m)) if m.contains("a.b.c")
    ));
    assert!(matches!(route_procedure("a.b.c", Some(LexiconType::Procedure)), Ok(CallTarget::Local)));
    assert!(matches!(route_procedure("a.b.c", None), Ok(CallTarget::Proxy)));
    assert!(route_procedure("a.b.c", Some(LexiconType::Query)).is_err());
    assert!(procedure_claims(None).is_err());
    assert_eq!(procedure_claims(Some("did:plc:u".into())).unwrap().did(), "did:plc:u");
}

#[test]
fn jobs_create_rejects_invalid_job_type() {
    let caller = JobsCaller { did: "did:plc:u".into(), api_client_id: None, dpop_key_id: None };
    for bad in ["", "INVALID TYPE!", "-lead", "a/b", "a\n", &"a".repeat(129)] {
        assert!(!job_type_is_valid(bad), "{bad:?}");
        assert_eq!(
            create_job(bad, "happyview.", Some(&caller), false).err().as_deref(),
            Some("job_type must be 1-128 characters matching /^[a-z0-9][a-z0-9._-]*$/")
        );
    }
    for good in ["a", "0", "sync.all-2_x", &"a".repeat(128)] {
        assert!(job_type_is_valid(good), "{good:?}");
    }
    assert!(create_job("happyview.sync", "happyview.", Some(&caller), false).is_err());
    assert!(create_job("sync", "happyview.", None, false).is_err());
}

#[test]
fn a_job_has_its_callers_session_only_if_it_inherits_it() {
    let caller = JobsCaller {
        did: "did:plc:u".into(),
        api_client_id: Some("client".into()),
        dpop_key_id: Some("key".into()),
    };
    let job = create_job("sync", "happyview.", Some(&caller), true).unwrap();
    assert_eq!(job.api_client_id.as_deref(), Some("client"));
    assert_eq!(job.dpop_key_id.as_deref(), Some("key"));
    let job = create_job("sync", "happyview.", Some(&caller), false).unwrap();
    assert_eq!(job.did, "did:plc:u");
    assert!(job.api_client_id.is_none() && job.dpop_key_id.is_none());
}

#[test]
fn write_record_raises_without_caller() {
    assert_eq!(require_caller(None, true), Err(SPACES_NO_CALLER_MSG.to_string()));
    assert_eq!(require_caller(Some("did:plc:u"), false), Err(SPACES_DISABLED_MSG.to_string()));
    assert_eq!(require_caller(Some("did:plc:u"), true), Ok("did:plc:u".to_string()));
    assert_eq!(require_spaces(false), Err(SPACES_DISABLED_MSG.to_string()));
    assert_eq!(require_spaces_caller(None, false), Err(SPACES_DISABLED_MSG.to_string()));
    assert_eq!(require_spaces_caller(None, true), Err(SPACES_NO_CALLER_MSG.to_string()));
    assert_eq!(require_spaces_caller(Some("did:plc:u"), true), Ok("did:plc:u".to_string()));
    assert_eq!(required("write_record", "collection", None).err().as_deref(), Some("write_record: collection is required"));
}

#[test]
fn write_record_requires_record_body() {
    assert_eq!(
        write_record(Some("c".into()), None).err().as_deref(),
        Some("write_record: record is required")
    );
    assert!(matches!(
        write_record(Some("c".into()), Some(Json::Bool(true))),
        Ok(WriteOp::Create { collection, rkey: None, value: Json::Bool(true) }) if collection == "c"
    ));
    assert_eq!(
        put_record(Some("c".into()), None, Some(Json::Null), None).err().as_deref(),
        Some("put_record: rkey is required")
    );
    assert!(matches!(
        put_record(Some("c".into()), Some("k".into()), Some(Json::Bool(true)), Some("bafy".into())),
        Ok(WriteOp::Update { rkey, swap_record: Some(swap), .. }) if rkey == "k" && swap == "bafy"
    ));
    assert!(matches!(
        delete_record(Some("c".into()), Some("k".into()), None),
        Ok(WriteOp::Delete { swap_record: None, .. })
    ));
    assert!(delete_record(None, Some("k".into()), None).is_err());
}

#[test]
fn access_is_named_by_a_word() {
    assert_eq!(member_access_from_str("write"), Some(MemberAccess::writer()));
    assert_eq!(member_access_from_str("all"), None);
    assert_eq!(requested_access("add_member", None), Ok(None));
    assert_eq!(requested_access("add_member", Some("read")), Ok(Some(MemberAccess::reader())));
    assert_eq!(
        requested_access("add_member", Some("all")),
        Err("add_member: invalid access 'all'".to_string())
    );
}

#[test]
fn a_patch_sets_clears_or_leaves() {
    assert_eq!(nullable("description", PatchOption::Absent), Ok(None));
    assert_eq!(nullable("description", PatchOption::False), Ok(Some(None)));
    assert_eq!(
        nullable("description", PatchOption::Text("d".into())),
        Ok(Some(Some("d".to_string())))
    );
    assert_eq!(
        nullable("description", PatchOption::Other),
        Err("update: description must be a string or false".to_string())
    );
}

#[test]
fn what_is_not_there_is_nothing_and_not_an_error() {
    assert!(matches!(found_or_nothing(Err(AppError::NotFound("Space not found".into()))), Ok(None)));
    assert!(found_or_nothing(Err(AppError::Internal("db".into()))).is_err());
    let members = vec![ResolvedMember { did: "did:plc:u".into(), access: MemberAccess::self_reader() }];
    assert_eq!(member_words(&members), vec![("did:plc:u".to_string(), "read_self")]);
    let entry = record_entry(SpaceRecord {
        uri: "u".into(),
        space_id: "s".into(),
        author_did: "did:plc:a".into(),
        collection: "c".into(),
        rkey: "k".into(),
        record: Json::Bool(true),
        cid: "bafy".into(),
        indexed_at: "now".into(),
    });
    assert_eq!(entry.get_str("authorDid"), Some("did:plc:a"));
    assert_eq!(entry.get("record"), Some(&Json::Bool(true)));
}
