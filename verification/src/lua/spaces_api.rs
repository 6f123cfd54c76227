//! Spaces in scripts.
//!
//! A script works on a handle of a space, for the user it runs for. What it
//! passes comes as options, of which some are required; a failure is the text
//! that the script is told.
use vstd::prelude::*;

use crate::error::AppError;
use crate::json::{Json, JsonView};
use crate::spaces::record_writes::{WriteOp, WriteOpView};
use crate::spaces::types::{MemberAccess, ResolvedMember, Space, SpaceRecord};
use crate::text;

verus! {

/// What a script is told that works on a space for nobody.
pub const SPACES_NO_CALLER_MSG: &'static str =
    "this space operation requires an authenticated caller (caller_did is not set in this context)";

/// What a script is told where there are no spaces.
pub const SPACES_DISABLED_MSG: &'static str = "spaces feature is not enabled";

/// The fallible outcome of reading a script's options.
pub open spec fn script_outcome<T: View>(result: Result<T, String>) -> Result<T::V, Seq<char>> {
    match result {
        Ok(value) => Ok(value@),
        Err(message) => Err(message@),
    }
}

/// Who a handle's writing method acts for. That there is nobody is told first.
pub fn require_caller(caller_did: Option<&str>, spaces_enabled: bool) -> (did: Result<String, String>)
    ensures
        script_outcome(did) == (match caller_did {
            None => Err(SPACES_NO_CALLER_MSG@),
            Some(d) => if spaces_enabled {
                Ok(d@)
            } else {
                Err(SPACES_DISABLED_MSG@)
            },
        }),
{
    match caller_did {
        None => Err(SPACES_NO_CALLER_MSG.to_owned()),
        Some(did) => if spaces_enabled {
            Ok(did.to_owned())
        } else {
            Err(SPACES_DISABLED_MSG.to_owned())
        },
    }
}

/// Who a function that makes a handle acts for. That there are no spaces is told
/// first.
pub fn require_spaces_caller(caller_did: Option<&str>, spaces_enabled: bool) -> (did: Result<
    String,
    String,
>)
    ensures
        script_outcome(did) == (if !spaces_enabled {
            Err(SPACES_DISABLED_MSG@)
        } else {
            match caller_did {
                Some(d) => Ok(d@),
                None => Err(SPACES_NO_CALLER_MSG@),
            }
        }),
{
    if !spaces_enabled {
        return Err(SPACES_DISABLED_MSG.to_owned());
    }
    match caller_did {
        Some(did) => Ok(did.to_owned()),
        None => Err(SPACES_NO_CALLER_MSG.to_owned()),
    }
}

/// Refuses a reading method where there are no spaces.
pub fn require_spaces(spaces_enabled: bool) -> (result: Result<(), String>)
    ensures
        match result {
            Ok(_) => spaces_enabled,
            Err(message) => !spaces_enabled && message@ == SPACES_DISABLED_MSG@,
        },
{
    if spaces_enabled {
        Ok(())
    } else {
        Err(SPACES_DISABLED_MSG.to_owned())
    }
}

/// The failure for an option that is missing.
pub open spec fn required_message(method: Seq<char>, key: Seq<char>) -> Seq<char> {
    method + ": "@ + key + " is required"@
}

/// An option that a method requires.
pub fn required(method: &str, key: &str, value: Option<String>) -> (text: Result<String, String>)
    ensures
        script_outcome(text) == (match value {
            Some(v) => Ok(v@),
            None => Err(required_message(method@, key@)),
        }),
{
    match value {
        Some(v) => Ok(v),
        None => Err(text::cat4(method, ": ", key, " is required")),
    }
}

/// The write that `write_record` asks for.
pub open spec fn write_record_of(collection: Option<Seq<char>>, record: Option<JsonView>) -> Result<
    WriteOpView,
    Seq<char>,
> {
    match collection {
        None => Err(required_message("write_record"@, "collection"@)),
        Some(c) => match record {
            None => Err(required_message("write_record"@, "record"@)),
            Some(value) => Ok(WriteOpView::Create { collection: c, rkey: None, value }),
        },
    }
}

/// What an optional value is.
pub open spec fn opt_value(value: Option<Json>) -> Option<JsonView> {
    match value {
        Some(v) => Some(v@),
        None => None,
    }
}

/// Reads the options of `write_record`.
pub fn write_record(collection: Option<String>, record: Option<Json>) -> (op: Result<WriteOp, String>)
    ensures
        script_outcome(op) == write_record_of(text::opt_text(collection), opt_value(record)),
{
    let collection = match required("write_record", "collection", collection) {
        Ok(c) => c,
        Err(message) => {
            return Err(message);
        },
    };
    match record {
        None => Err(text::cat4("write_record", ": ", "record", " is required")),
        Some(value) => Ok(WriteOp::Create { collection, rkey: None, value }),
    }
}

/// The write that `put_record` asks for.
pub open spec fn put_record_of(
    collection: Option<Seq<char>>,
    rkey: Option<Seq<char>>,
    record: Option<JsonView>,
    swap_cid: Option<Seq<char>>,
) -> Result<WriteOpView, Seq<char>> {
    match collection {
        None => Err(required_message("put_record"@, "collection"@)),
        Some(c) => match rkey {
            None => Err(required_message("put_record"@, "rkey"@)),
            Some(k) => match record {
                None => Err(required_message("put_record"@, "record"@)),
                Some(value) => Ok(
                    WriteOpView::Update { collection: c, rkey: k, value, swap_record: swap_cid },
                ),
            },
        },
    }
}

/// Reads the options of `put_record`.
pub fn put_record(
    collection: Option<String>,
    rkey: Option<String>,
    record: Option<Json>,
    swap_cid: Option<String>,
) -> (op: Result<WriteOp, String>)
    ensures
        script_outcome(op) == put_record_of(
            text::opt_text(collection),
            text::opt_text(rkey),
            opt_value(record),
            text::opt_text(swap_cid),
        ),
{
    let collection = match required("put_record", "collection", collection) {
        Ok(c) => c,
        Err(message) => {
            return Err(message);
        },
    };
    let rkey = match required("put_record", "rkey", rkey) {
        Ok(k) => k,
        Err(message) => {
            return Err(message);
        },
    };
    match record {
        None => Err(text::cat4("put_record", ": ", "record", " is required")),
        Some(value) => Ok(WriteOp::Update { collection, rkey, value, swap_record: swap_cid }),
    }
}

/// The write that `delete_record` asks for.
pub open spec fn delete_record_of(
    collection: Option<Seq<char>>,
    rkey: Option<Seq<char>>,
    swap_cid: Option<Seq<char>>,
) -> Result<WriteOpView, Seq<char>> {
    match collection {
        None => Err(required_message("delete_record"@, "collection"@)),
        Some(c) => match rkey {
            None => Err(required_message("delete_record"@, "rkey"@)),
            Some(k) => Ok(WriteOpView::Delete { collection: c, rkey: k, swap_record: swap_cid }),
        },
    }
}

/// Reads the options of `delete_record`.
pub fn delete_record(collection: Option<String>, rkey: Option<String>, swap_cid: Option<String>) -> (op:
    Result<WriteOp, String>)
    ensures
        script_outcome(op) == delete_record_of(
            text::opt_text(collection),
            text::opt_text(rkey),
            text::opt_text(swap_cid),
        ),
{
    let collection = match required("delete_record", "collection", collection) {
        Ok(c) => c,
        Err(message) => {
            return Err(message);
        },
    };
    let rkey = match required("delete_record", "rkey", rkey) {
        Ok(k) => k,
        Err(message) => {
            return Err(message);
        },
    };
    Ok(WriteOp::Delete { collection, rkey, swap_record: swap_cid })
}

/// The grant that a script's word stands for: `read`, `read_self`, `write` or
/// `none`.
pub fn member_access_from_str(s: &str) -> (access: Option<MemberAccess>)
    ensures
        access == MemberAccess::of_wire(s@),
{
    MemberAccess::parse_wire(s)
}

/// The grant that a script asks for, if it asks for one.
pub fn requested_access(method: &str, word: Option<&str>) -> (access: Result<
    Option<MemberAccess>,
    String,
>)
    ensures
        match access {
            Ok(None) => word is None,
            Ok(Some(granted)) => word matches Some(w) && MemberAccess::of_wire(w@) == Some(granted),
            Err(message) => word matches Some(w) && MemberAccess::of_wire(w@) is None && message@
                == method@ + ": invalid access '"@ + w@ + "'"@,
        },
{
    match word {
        None => Ok(None),
        Some(w) => match member_access_from_str(w) {
            Some(access) => Ok(Some(access)),
            None => Err(text::cat4(method, ": invalid access '", w, "'")),
        },
    }
}

/// What a script passes for a field that it can set, clear, or leave.
pub enum PatchOption {
    Absent,
    False,
    Text(String),
    Other,
}

/// What becomes of a field: `None` where it stays, and else the text or nothing.
pub fn nullable(key: &str, option: PatchOption) -> (patch: Result<Option<Option<String>>, String>)
    ensures
        match option {
            PatchOption::Absent => patch matches Ok(None),
            PatchOption::False => patch matches Ok(Some(None)),
            PatchOption::Text(t) => patch matches Ok(Some(Some(s))) && s@ == t@,
            PatchOption::Other => patch matches Err(message) && message@ == "update: "@ + key@
                + " must be a string or false"@,
        },
{
    match option {
        PatchOption::Absent => Ok(None),
        PatchOption::False => Ok(Some(None)),
        PatchOption::Text(t) => Ok(Some(Some(t))),
        PatchOption::Other => Err(text::cat3("update: ", key, " must be a string or false")),
    }
}

/// What a lookup of a space means for a script: one that is not there is nothing,
/// and any other failure is one.
pub fn found_or_nothing(lookup: Result<Space, AppError>) -> (found: Result<Option<Space>, AppError>)
    ensures
        match lookup {
            Ok(space) => found == Ok::<Option<Space>, AppError>(Some(space)),
            Err(AppError::NotFound(_)) => found == Ok::<Option<Space>, AppError>(None),
            Err(error) => found == Err::<Option<Space>, AppError>(error),
        },
{
    match lookup {
        Ok(space) => Ok(Some(space)),
        Err(error) => match error {
            AppError::NotFound(_) => Ok(None),
            _ => Err(error),
        },
    }
}

/// The words for the members of a space.
pub fn member_words(members: &Vec<ResolvedMember>) -> (words: Vec<(String, &'static str)>)
    ensures
        words@.len() == members@.len(),
        forall|i: int|
            0 <= i < words@.len() ==> (#[trigger] words@[i]).0@ == members@[i].did@ && words@[i].1@
                == members@[i].access.wire_text(),
{
    let mut words: Vec<(String, &'static str)> = Vec::new();
    for i in 0..members.len()
        invariant
            words@.len() == i,
            forall|j: int|
                0 <= j < i ==> (#[trigger] words@[j]).0@ == members@[j].did@ && words@[j].1@
                    == members@[j].access.wire_text(),
    {
        words.push((members[i].did.clone(), members[i].access.as_wire_str()));
    }
    words
}

/// A record, as a script's query shows it.
pub fn record_entry(record: SpaceRecord) -> (entry: Json)
    ensures
        entry@ == JsonView::Object(
            seq![
                ("uri"@, JsonView::Text(record@.uri)),
                ("collection"@, JsonView::Text(record@.collection)),
                ("rkey"@, JsonView::Text(record@.rkey)),
                ("record"@, record@.record),
                ("cid"@, JsonView::Text(record@.cid)),
                ("authorDid"@, JsonView::Text(record@.author_did)),
            ],
        ),
{
    let entry = Json::Object(
        vec![
            ("uri".to_owned(), Json::Text(record.uri)),
            ("collection".to_owned(), Json::Text(record.collection)),
            ("rkey".to_owned(), Json::Text(record.rkey)),
            ("record".to_owned(), record.record),
            ("cid".to_owned(), Json::Text(record.cid)),
            ("authorDid".to_owned(), Json::Text(record.author_did)),
        ],
    );
    proof {
        crate::json::lemma_json_views(entry);
        assert(entry@->Object_0 =~= seq![
            ("uri"@, JsonView::Text(record@.uri)),
            ("collection"@, JsonView::Text(record@.collection)),
            ("rkey"@, JsonView::Text(record@.rkey)),
            ("record"@, record@.record),
            ("cid"@, JsonView::Text(record@.cid)),
            ("authorDid"@, JsonView::Text(record@.author_did)),
        ]);
    }
    entry
}

/// A script's write is what its options say, and made just if those that it needs
/// are there: a collection and a record to write one, a key as well to put it, and a
/// collection and a key to delete one.
pub proof fn law_writes_are_what_the_options_say(
    collection: Option<Seq<char>>,
    rkey: Option<Seq<char>>,
    record: Option<JsonView>,
    swap_cid: Option<Seq<char>>,
)
    ensures
        write_record_of(collection, record) is Ok <==> collection is Some && record is Some,
        write_record_of(collection, record) matches Ok(op) ==> (op matches WriteOpView::Create {
            collection: c,
            rkey: k,
            value,
        } && Some(c) == collection && k is None && Some(value) == record),
        put_record_of(collection, rkey, record, swap_cid) is Ok <==> collection is Some && rkey is Some
            && record is Some,
        put_record_of(collection, rkey, record, swap_cid) matches Ok(op) ==> (op matches WriteOpView::Update {
            collection: c,
            rkey: k,
            value,
            swap_record,
        } && Some(c) == collection && Some(k) == rkey && Some(value) == record && swap_record == swap_cid),
        delete_record_of(collection, rkey, swap_cid) is Ok <==> collection is Some && rkey is Some,
        delete_record_of(collection, rkey, swap_cid) matches Ok(op) ==> (op matches WriteOpView::Delete {
            collection: c,
            rkey: k,
            swap_record,
        } && Some(c) == collection && Some(k) == rkey && swap_record == swap_cid),
{
}

/// Who leaves out an option is told the method and the first option that is
/// missing.
pub proof fn law_the_missing_option_is_named(
    collection: Option<Seq<char>>,
    rkey: Option<Seq<char>>,
    record: Option<JsonView>,
    swap_cid: Option<Seq<char>>,
)
    ensures
        collection is None ==> {
            &&& write_record_of(collection, record) == Err::<WriteOpView, Seq<char>>(
                "write_record: collection is required"@,
            )
            &&& put_record_of(collection, rkey, record, swap_cid) == Err::<WriteOpView, Seq<char>>(
                "put_record: collection is required"@,
            )
            &&& delete_record_of(collection, rkey, swap_cid) == Err::<WriteOpView, Seq<char>>(
                "delete_record: collection is required"@,
            )
        },
        collection is Some && rkey is None ==> {
            &&& put_record_of(collection, rkey, record, swap_cid) == Err::<WriteOpView, Seq<char>>(
                "put_record: rkey is required"@,
            )
            &&& delete_record_of(collection, rkey, swap_cid) == Err::<WriteOpView, Seq<char>>(
                "delete_record: rkey is required"@,
            )
        },
        collection is Some && rkey is Some && record is None ==> {
            &&& write_record_of(collection, record) == Err::<WriteOpView, Seq<char>>(
                "write_record: record is required"@,
            )
            &&& put_record_of(collection, rkey, record, swap_cid) == Err::<WriteOpView, Seq<char>>(
                "put_record: record is required"@,
            )
        },
{
    reveal_strlit(": ");
    reveal_strlit(" is required");
    reveal_strlit("write_record");
    reveal_strlit("put_record");
    reveal_strlit("delete_record");
    reveal_strlit("collection");
    reveal_strlit("rkey");
    reveal_strlit("record");
    reveal_strlit("write_record: collection is required");
    reveal_strlit("put_record: collection is required");
    reveal_strlit("delete_record: collection is required");
    reveal_strlit("put_record: rkey is required");
    reveal_strlit("delete_record: rkey is required");
    reveal_strlit("write_record: record is required");
    reveal_strlit("put_record: record is required");
    assert(required_message("write_record"@, "collection"@) =~= "write_record: collection is required"@);
    assert(required_message("put_record"@, "collection"@) =~= "put_record: collection is required"@);
    assert(required_message("delete_record"@, "collection"@) =~= "delete_record: collection is required"@);
    assert(required_message("put_record"@, "rkey"@) =~= "put_record: rkey is required"@);
    assert(required_message("delete_record"@, "rkey"@) =~= "delete_record: rkey is required"@);
    assert(required_message("write_record"@, "record"@) =~= "write_record: record is required"@);
    assert(required_message("put_record"@, "record"@) =~= "put_record: record is required"@);
}

} // verus!
