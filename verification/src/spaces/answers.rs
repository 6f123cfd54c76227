//! What the endpoints answer with.
use vstd::prelude::*;

use crate::json::{Json, JsonView};
use crate::spaces::native_sync;
use crate::spaces::routes;
use crate::spaces::types;
use crate::spaces::types::{Space, SpaceInvite, SpaceRecord};
use crate::text;

verus! {

/// Makes an object out of its members.
fn object(members: Vec<(String, Json)>) -> (json: Json)
    ensures
        json@ == JsonView::Object(crate::json::member_views(members@)),
{
    let json = Json::Object(members);
    proof {
        crate::json::lemma_json_views(json);
    }
    json
}

/// Makes a list out of its items.
fn list(items: Vec<Json>) -> (json: Json)
    ensures
        json@ == JsonView::List(crate::json::json_views(items@)),
{
    let json = Json::List(items);
    proof {
        crate::json::lemma_json_views(json);
    }
    json
}

/// What a list of records shows of a record: not its value.
pub open spec fn listed_record(record: SpaceRecord) -> JsonView {
    JsonView::Object(
        seq![
            ("collection"@, JsonView::Text(record.collection@)),
            ("rkey"@, JsonView::Text(record.rkey@)),
            ("cid"@, JsonView::Text(record.cid@)),
        ],
    )
}

/// A page of records, with where it goes on.
pub fn list_records(records: &Vec<SpaceRecord>, cursor: &Option<String>) -> (answer: Json)
    ensures
        answer@ == JsonView::Object(
            seq![
                ("records"@, JsonView::List(records@.map_values(|r: SpaceRecord| listed_record(r)))),
                ("cursor"@, routes::opt_json(text::opt_text(*cursor))),
            ],
        ),
{
    let ghost shown = records@.map_values(|r: SpaceRecord| listed_record(r));
    let mut items: Vec<Json> = Vec::new();
    for i in 0..records.len()
        invariant
            items@.len() == i,
            forall|j: int| 0 <= j < i ==> (#[trigger] items@[j])@ == listed_record(records@[j]),
    {
        let record = &records[i];
        let item = object(
            vec![
                ("collection".to_owned(), Json::Text(record.collection.clone())),
                ("rkey".to_owned(), Json::Text(record.rkey.clone())),
                ("cid".to_owned(), Json::Text(record.cid.clone())),
            ],
        );
        assert(item@->Object_0 =~= listed_record(*record)->Object_0);
        items.push(item);
    }
    assert(crate::json::json_views(items@) =~= shown);
    let answer = object(
        vec![
            ("records".to_owned(), list(items)),
            ("cursor".to_owned(), routes::make_opt_json(cursor)),
        ],
    );
    assert(answer@->Object_0 =~= seq![
        ("records"@, JsonView::List(shown)),
        ("cursor"@, routes::opt_json(text::opt_text(*cursor))),
    ]);
    answer
}

/// A value, or null.
pub open spec fn or_null(value: Option<Json>) -> JsonView {
    match value {
        Some(v) => v@,
        None => JsonView::Null,
    }
}

/// A page of a repo's ops, with where it goes on and the repo's latest commit.
pub fn list_repo_ops(ops: Vec<Json>, cursor: &Option<String>, commit: Option<Json>) -> (answer: Json)
    ensures
        answer@ == JsonView::Object(
            seq![
                ("ops"@, JsonView::List(crate::json::json_views(ops@))),
                ("cursor"@, routes::opt_json(text::opt_text(*cursor))),
                ("commit"@, or_null(commit)),
            ],
        ),
{
    let ghost views = crate::json::json_views(ops@);
    let ghost shown = or_null(commit);
    let commit = match commit {
        Some(value) => value,
        None => Json::Null,
    };
    let answer = object(
        vec![
            ("ops".to_owned(), list(ops)),
            ("cursor".to_owned(), routes::make_opt_json(cursor)),
            ("commit".to_owned(), commit),
        ],
    );
    assert(answer@->Object_0 =~= seq![
        ("ops"@, JsonView::List(views)),
        ("cursor"@, routes::opt_json(text::opt_text(*cursor))),
        ("commit"@, shown),
    ]);
    answer
}

/// A page of blobs. Where it goes on is left out if it does not.
pub open spec fn blobs_page(cids: Seq<Seq<char>>, cursor: Option<Seq<char>>) -> JsonView {
    let listed = ("cids"@, JsonView::List(cids.map_values(|cid: Seq<char>| JsonView::Text(cid))));
    JsonView::Object(
        match cursor {
            Some(at) => seq![listed, ("cursor"@, JsonView::Text(at))],
            None => seq![listed],
        },
    )
}

/// A page of blobs.
pub fn list_blobs(cids: &Vec<String>, cursor: Option<String>) -> (answer: Json)
    ensures
        answer@ == blobs_page(text::texts(cids@), text::opt_text(cursor)),
{
    let mut members = vec![("cids".to_owned(), types::json_text_list(cids))];
    let ghost at = text::opt_text(cursor);
    if let Some(cursor) = cursor {
        members.push(("cursor".to_owned(), Json::Text(cursor)));
    }
    let answer = object(members);
    assert(answer@->Object_0 =~= blobs_page(text::texts(cids@), at)->Object_0);
    answer
}

/// What a space is configured to be, as the management lexicon shows it.
pub open spec fn shown_config(space: Space) -> JsonView {
    JsonView::Object(
        seq![
            ("$type"@, JsonView::Text("com.atproto.simplespace.defs#spaceConfig"@)),
            ("readPolicy"@, types::json_of_policy(space.read_policy@)),
            ("writePolicy"@, types::json_of_policy(space.write_policy@)),
            ("appAccess"@, types::json_of_app_access(space.app_access@)),
        ],
    )
}

/// A space, by its address, by itself and by its configuration. `shown` is the
/// space as JSON.
pub fn get_space(space: &Space, shown: Json) -> (answer: Json)
    ensures
        answer@ == JsonView::Object(
            seq![
                ("uri"@, JsonView::Text(native_sync::space_address(*space))),
                ("space"@, shown@),
                ("config"@, shown_config(*space)),
            ],
        ),
{
    let config = object(
        vec![
            (
                "$type".to_owned(),
                Json::Text("com.atproto.simplespace.defs#spaceConfig".to_owned()),
            ),
            ("readPolicy".to_owned(), space.read_policy.to_json()),
            ("writePolicy".to_owned(), space.write_policy.to_json()),
            ("appAccess".to_owned(), space.app_access.to_json()),
        ],
    );
    assert(config@->Object_0 =~= shown_config(*space)->Object_0);
    let ghost view = shown@;
    let answer = object(
        vec![
            ("uri".to_owned(), Json::Text(native_sync::space_uri(space))),
            ("space".to_owned(), shown),
            ("config".to_owned(), config),
        ],
    );
    assert(answer@->Object_0 =~= seq![
        ("uri"@, JsonView::Text(native_sync::space_address(*space))),
        ("space"@, view),
        ("config"@, shown_config(*space)),
    ]);
    answer
}

/// What a list of a user's spaces shows of one: its address, and whether it is
/// the user's own.
pub open spec fn listed_space(space: (String, bool)) -> JsonView {
    JsonView::Object(
        seq![("uri"@, JsonView::Text(space.0@)), ("isOwner"@, JsonView::Bool(space.1))],
    )
}

/// A page of a user's spaces, with where it goes on.
pub fn list_spaces(spaces: &Vec<(String, bool)>, cursor: &Option<String>) -> (answer: Json)
    ensures
        answer@ == JsonView::Object(
            seq![
                ("spaces"@, JsonView::List(spaces@.map_values(|s: (String, bool)| listed_space(s)))),
                ("cursor"@, routes::opt_json(text::opt_text(*cursor))),
            ],
        ),
{
    let ghost shown = spaces@.map_values(|s: (String, bool)| listed_space(s));
    let mut items: Vec<Json> = Vec::new();
    for i in 0..spaces.len()
        invariant
            items@.len() == i,
            forall|j: int| 0 <= j < i ==> (#[trigger] items@[j])@ == listed_space(spaces@[j]),
    {
        let item = object(
            vec![
                ("uri".to_owned(), Json::Text(spaces[i].0.clone())),
                ("isOwner".to_owned(), Json::Bool(spaces[i].1)),
            ],
        );
        assert(item@->Object_0 =~= listed_space(spaces@[i as int])->Object_0);
        items.push(item);
    }
    assert(crate::json::json_views(items@) =~= shown);
    let answer = object(
        vec![
            ("spaces".to_owned(), list(items)),
            ("cursor".to_owned(), routes::make_opt_json(cursor)),
        ],
    );
    assert(answer@->Object_0 =~= seq![
        ("spaces"@, JsonView::List(shown)),
        ("cursor"@, routes::opt_json(text::opt_text(*cursor))),
    ]);
    answer
}

/// A number, or null.
pub open spec fn number_json(number: Option<i64>) -> JsonView {
    match number {
        None => JsonView::Null,
        Some(n) => if n < 0 {
            JsonView::Negative(n)
        } else {
            JsonView::Unsigned(n as u64)
        },
    }
}

fn make_number_json(number: Option<i64>) -> (json: Json)
    ensures
        json@ == number_json(number),
{
    match number {
        None => Json::Null,
        Some(n) => if n < 0 {
            Json::Negative(n)
        } else {
            Json::Unsigned(n as u64)
        },
    }
}

/// A new invitation, with the token that redeems it: the token is shown this
/// once, and only its hash is kept. `access` is what the invitation grants, as
/// JSON.
pub fn create_invite(invite: &SpaceInvite, token: String, access: Json) -> (answer: Json)
    ensures
        answer@ == JsonView::Object(
            seq![
                ("inviteId"@, JsonView::Text(invite.id@)),
                ("token"@, JsonView::Text(token@)),
                ("access"@, access@),
                ("maxUses"@, number_json(invite.max_uses)),
                ("expiresAt"@, routes::opt_json(text::opt_text(invite.expires_at))),
            ],
        ),
{
    let ghost granted = access@;
    let answer = object(
        vec![
            ("inviteId".to_owned(), Json::Text(invite.id.clone())),
            ("token".to_owned(), Json::Text(token)),
            ("access".to_owned(), access),
            ("maxUses".to_owned(), make_number_json(invite.max_uses)),
            ("expiresAt".to_owned(), routes::make_opt_json(&invite.expires_at)),
        ],
    );
    assert(answer@->Object_0 =~= seq![
        ("inviteId"@, JsonView::Text(invite.id@)),
        ("token"@, JsonView::Text(token@)),
        ("access"@, granted),
        ("maxUses"@, number_json(invite.max_uses)),
        ("expiresAt"@, routes::opt_json(text::opt_text(invite.expires_at))),
    ]);
    answer
}

/// What a list of invitations shows of one: neither its token nor the token's
/// hash.
pub open spec fn listed_invite(invite: SpaceInvite, access: JsonView) -> JsonView {
    JsonView::Object(
        seq![
            ("id"@, JsonView::Text(invite.id@)),
            ("access"@, access),
            ("maxUses"@, number_json(invite.max_uses)),
            ("uses"@, number_json(Some(invite.uses))),
            ("expiresAt"@, routes::opt_json(text::opt_text(invite.expires_at))),
            ("revoked"@, JsonView::Bool(invite.revoked)),
            ("createdBy"@, JsonView::Text(invite.created_by@)),
            ("createdAt"@, JsonView::Text(invite.created_at@)),
        ],
    )
}

/// A space's invitations. Each comes with what it grants, as JSON.
pub fn list_invites(invites: &Vec<(SpaceInvite, Json)>) -> (answer: Json)
    ensures
        answer@ == JsonView::Object(
            seq![
                (
                    "invites"@,
                    JsonView::List(
                        invites@.map_values(|i: (SpaceInvite, Json)| listed_invite(i.0, i.1@)),
                    ),
                ),
            ],
        ),
{
    let ghost shown = invites@.map_values(|i: (SpaceInvite, Json)| listed_invite(i.0, i.1@));
    let mut items: Vec<Json> = Vec::new();
    for i in 0..invites.len()
        invariant
            items@.len() == i,
            forall|j: int|
                0 <= j < i ==> (#[trigger] items@[j])@ == listed_invite(
                    invites@[j].0,
                    invites@[j].1@,
                ),
    {
        let invite = &invites[i].0;
        let item = object(
            vec![
                ("id".to_owned(), Json::Text(invite.id.clone())),
                ("access".to_owned(), invites[i].1.copy()),
                ("maxUses".to_owned(), make_number_json(invite.max_uses)),
                ("uses".to_owned(), make_number_json(Some(invite.uses))),
                ("expiresAt".to_owned(), routes::make_opt_json(&invite.expires_at)),
                ("revoked".to_owned(), Json::Bool(invite.revoked)),
                ("createdBy".to_owned(), Json::Text(invite.created_by.clone())),
                ("createdAt".to_owned(), Json::Text(invite.created_at.clone())),
            ],
        );
        assert(item@->Object_0 =~= listed_invite(*invite, invites@[i as int].1@)->Object_0);
        items.push(item);
    }
    assert(crate::json::json_views(items@) =~= shown);
    let answer = object(vec![("invites".to_owned(), list(items))]);
    assert(answer@->Object_0 =~= seq![("invites"@, JsonView::List(shown))]);
    answer
}

/// A token, under the name that an endpoint gives it, with its expiry.
pub open spec fn token_answer(name: Seq<char>, token: Seq<char>, expires_at: Seq<char>) -> JsonView {
    JsonView::Object(seq![(name, JsonView::Text(token)), ("expiresAt"@, JsonView::Text(expires_at))])
}

fn make_token_answer(name: &str, token: String, expires_at: String) -> (answer: Json)
    ensures
        answer@ == token_answer(name@, token@, expires_at@),
{
    let answer = object(
        vec![
            (name.to_owned(), Json::Text(token)),
            ("expiresAt".to_owned(), Json::Text(expires_at)),
        ],
    );
    assert(answer@->Object_0 =~= token_answer(name@, token@, expires_at@)->Object_0);
    answer
}

/// A delegation token.
pub fn get_delegation_token(token: String, expires_at: String) -> (answer: Json)
    ensures
        answer@ == token_answer("delegationToken"@, token@, expires_at@),
{
    make_token_answer("delegationToken", token, expires_at)
}

/// A space credential.
pub fn get_space_credential(token: String, expires_at: String) -> (answer: Json)
    ensures
        answer@ == token_answer("credential"@, token@, expires_at@),
{
    make_token_answer("credential", token, expires_at)
}

/// A listed record tells its collection, its key and its CID, each under its name.
pub proof fn law_listed_records_go_by_name(record: SpaceRecord)
    ensures
        listed_record(record).get("collection"@) == Some(JsonView::Text(record.collection@)),
        listed_record(record).get("rkey"@) == Some(JsonView::Text(record.rkey@)),
        listed_record(record).get("cid"@) == Some(JsonView::Text(record.cid@)),
{
    reveal_strlit("collection");
    reveal_strlit("rkey");
    reveal_strlit("cid");
    assert("collection"@.len() == 10);
    assert("rkey"@.len() == 4);
    assert("cid"@.len() == 3);
    let m = listed_record(record)->Object_0;
    reveal_with_fuel(crate::json::lookup, 4);
    assert(m.drop_last() =~= m.take(2));
    assert(m.take(2).drop_last() =~= m.take(1));
    assert(m.take(1).drop_last() =~= m.take(0));
}

/// A space's configuration names its type, and whoever reads the policies and the
/// admitted applications from it gets those of the space.
pub proof fn law_shown_configurations_read_back(space: Space)
    ensures
        shown_config(space).get("$type"@) == Some(JsonView::Text("com.atproto.simplespace.defs#spaceConfig"@)),
        shown_config(space).get("readPolicy"@) == Some(types::json_of_policy(space.read_policy@)),
        shown_config(space).get("writePolicy"@) == Some(types::json_of_policy(space.write_policy@)),
        shown_config(space).get("appAccess"@) == Some(types::json_of_app_access(space.app_access@)),
        types::policy_of_json(shown_config(space).get("readPolicy"@)->0) == Some(space.read_policy@),
        types::policy_of_json(shown_config(space).get("writePolicy"@)->0) == Some(space.write_policy@),
        types::app_access_of_json(shown_config(space).get("appAccess"@)->0) == Some(space.app_access@),
{
    reveal_strlit("$type");
    reveal_strlit("readPolicy");
    reveal_strlit("writePolicy");
    reveal_strlit("appAccess");
    assert("$type"@.len() == 5);
    assert("readPolicy"@.len() == 10);
    assert("writePolicy"@.len() == 11);
    assert("appAccess"@.len() == 9);
    let m = shown_config(space)->Object_0;
    reveal_with_fuel(crate::json::lookup, 5);
    assert(m.drop_last() =~= m.take(3));
    assert(m.take(3).drop_last() =~= m.take(2));
    assert(m.take(2).drop_last() =~= m.take(1));
    assert(m.take(1).drop_last() =~= m.take(0));
    types::law_policy_json_round_trip(space.read_policy@);
    types::law_policy_json_round_trip(space.write_policy@);
    types::law_app_access_json_round_trip(space.app_access@);
}

/// A listed space tells its address, and whether the caller owns it.
pub proof fn law_listed_spaces_go_by_name(space: (String, bool))
    ensures
        listed_space(space).get("uri"@) == Some(JsonView::Text(space.0@)),
        listed_space(space).get("isOwner"@) == Some(JsonView::Bool(space.1)),
{
    reveal_strlit("uri");
    reveal_strlit("isOwner");
    assert("uri"@.len() == 3);
    assert("isOwner"@.len() == 7);
    let m = listed_space(space)->Object_0;
    reveal_with_fuel(crate::json::lookup, 3);
    assert(m.drop_last() =~= m.take(1));
    assert(m.take(1).drop_last() =~= m.take(0));
}

/// A listed invitation tells what is stored of it, each part under its name, and
/// not the hash of its token.
pub proof fn law_listed_invites_go_by_name(invite: SpaceInvite, access: JsonView)
    ensures
        listed_invite(invite, access).get("id"@) == Some(JsonView::Text(invite.id@)),
        listed_invite(invite, access).get("access"@) == Some(access),
        listed_invite(invite, access).get("maxUses"@) == Some(number_json(invite.max_uses)),
        listed_invite(invite, access).get("uses"@) == Some(number_json(Some(invite.uses))),
        listed_invite(invite, access).get("expiresAt"@) == Some(routes::opt_json(text::opt_text(invite.expires_at))),
        listed_invite(invite, access).get("revoked"@) == Some(JsonView::Bool(invite.revoked)),
        listed_invite(invite, access).get("createdBy"@) == Some(JsonView::Text(invite.created_by@)),
        listed_invite(invite, access).get("createdAt"@) == Some(JsonView::Text(invite.created_at@)),
        listed_invite(invite, access)->Object_0.len() == 8,
{
    reveal_strlit("id");
    reveal_strlit("access");
    reveal_strlit("maxUses");
    reveal_strlit("uses");
    reveal_strlit("expiresAt");
    reveal_strlit("revoked");
    reveal_strlit("createdBy");
    reveal_strlit("createdAt");
    assert("id"@.len() == 2);
    assert("access"@.len() == 6);
    assert("maxUses"@.len() == 7);
    assert("uses"@.len() == 4);
    assert("expiresAt"@.len() == 9);
    assert("revoked"@.len() == 7);
    assert("createdBy"@.len() == 9);
    assert("createdAt"@.len() == 9);
    assert("maxUses"@[0] == 'm');
    assert("revoked"@[0] == 'r');
    assert("expiresAt"@[0] == 'e');
    assert("createdBy"@[0] == 'c');
    assert("createdAt"@[0] == 'c');
    assert("createdBy"@[7] == 'B');
    assert("createdAt"@[7] == 'A');
    let m = listed_invite(invite, access)->Object_0;
    reveal_with_fuel(crate::json::lookup, 9);
    assert(m.drop_last() =~= m.take(7));
    assert(m.take(7).drop_last() =~= m.take(6));
    assert(m.take(6).drop_last() =~= m.take(5));
    assert(m.take(5).drop_last() =~= m.take(4));
    assert(m.take(4).drop_last() =~= m.take(3));
    assert(m.take(3).drop_last() =~= m.take(2));
    assert(m.take(2).drop_last() =~= m.take(1));
    assert(m.take(1).drop_last() =~= m.take(0));
}

/// A number is shown as that number, and nothing as null.
pub proof fn law_numbers_are_shown_as_they_are(number: Option<i64>)
    ensures
        number is None <==> number_json(number) is Null,
        number matches Some(n) ==> (n < 0 ==> number_json(number) == JsonView::Negative(n)) && (n >= 0
            ==> number_json(number) is Unsigned && number_json(number)->Unsigned_0 == n),
{
}

/// A page of blobs lists their CIDs in order, and says where to go on just if there
/// is more.
pub proof fn law_blob_pages_list_the_cids(cids: Seq<Seq<char>>, cursor: Option<Seq<char>>)
    ensures
        blobs_page(cids, cursor).get("cids"@) matches Some(JsonView::List(listed)) && listed.len() == cids.len()
            && forall|i: int| 0 <= i < cids.len() ==> (#[trigger] listed[i]) == JsonView::Text(cids[i]),
        blobs_page(cids, cursor).get_str("cursor"@) == cursor,
        cursor is None ==> blobs_page(cids, cursor).get("cursor"@) is None,
{
    reveal_strlit("cids");
    reveal_strlit("cursor");
    assert("cids"@.len() == 4);
    assert("cursor"@.len() == 6);
    reveal_with_fuel(crate::json::lookup, 3);
    let m = blobs_page(cids, cursor)->Object_0;
    if cursor is Some {
        assert(m.drop_last() =~= m.take(1));
    }
    assert(m.take(1).drop_last() =~= m.take(0));
    assert(m.take(1) =~= seq![m[0]]);
    assert(seq![m[0]].drop_last() =~= m.take(0));
}

/// A token is answered under the name that it goes by, with the time at which it
/// expires.
pub proof fn law_tokens_are_answered_with_their_expiry(
    name: Seq<char>,
    token: Seq<char>,
    expires_at: Seq<char>,
)
    requires
        name != "expiresAt"@,
    ensures
        token_answer(name, token, expires_at).get_str(name) == Some(token),
        token_answer(name, token, expires_at).get_str("expiresAt"@) == Some(expires_at),
        token_answer(name, token, expires_at)->Object_0.len() == 2,
{
    let m = token_answer(name, token, expires_at)->Object_0;
    reveal_with_fuel(crate::json::lookup, 3);
    assert(m.drop_last() =~= m.take(1));
    assert(m.take(1).drop_last() =~= m.take(0));
}

} // verus!
