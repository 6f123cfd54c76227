//! Authenticating API clients, and what their scopes cover.
use vstd::prelude::*;

use crate::crypto;
use crate::error::{AppError, ErrorView};
use crate::json::{Json, JsonView};
use crate::spaces::types;
use crate::text;
use crate::url;

verus! {

/// An API client, as it was authenticated.
#[derive(Debug)]
pub struct ResolvedClient {
    pub id: String,
    pub client_key: String,
    pub client_type: String,
    pub scopes: String,
    pub allowed_origins: Option<Vec<String>>,
}

/// What a [`ResolvedClient`] is.
#[verifier::ext_equal]
pub struct ClientView {
    pub id: Seq<char>,
    pub client_key: Seq<char>,
    pub client_type: Seq<char>,
    pub scopes: Seq<char>,
    pub allowed_origins: Option<Seq<Seq<char>>>,
}

impl View for ResolvedClient {
    type V = ClientView;

    open spec fn view(&self) -> ClientView {
        ClientView {
            id: self.id@,
            client_key: self.client_key@,
            client_type: self.client_type@,
            scopes: self.scopes@,
            allowed_origins: match self.allowed_origins {
                Some(list) => Some(text::texts(list@)),
                None => None,
            },
        }
    }
}

/// What is stored of an active API client.
#[derive(Debug)]
pub struct ClientRow {
    pub id: String,
    pub client_key: String,
    pub client_type: String,
    pub scopes: String,
    /// The origins that may use the client, as a JSON list.
    pub allowed_origins: Option<String>,
    pub client_secret_hash: String,
}

/// What a [`ClientRow`] holds.
#[verifier::ext_equal]
pub struct ClientRowView {
    pub id: Seq<char>,
    pub client_key: Seq<char>,
    pub client_type: Seq<char>,
    pub scopes: Seq<char>,
    pub allowed_origins: Option<Seq<char>>,
    pub client_secret_hash: Seq<char>,
}

impl View for ClientRow {
    type V = ClientRowView;

    open spec fn view(&self) -> ClientRowView {
        ClientRowView {
            id: self.id@,
            client_key: self.client_key@,
            client_type: self.client_type@,
            scopes: self.scopes@,
            allowed_origins: text::opt_text(self.allowed_origins),
            client_secret_hash: self.client_secret_hash@,
        }
    }
}

/// What an optional [`ClientRow`] holds.
pub open spec fn row_view(row: Option<ClientRow>) -> Option<ClientRowView> {
    match row {
        Some(r) => Some(r@),
        None => None,
    }
}

/// The texts of a JSON list: none if it is no list of texts.
pub open spec fn origins_of(json: Seq<char>) -> Seq<Seq<char>> {
    match crate::json::json_parsed(vstd::utf8::encode_utf8(json)) {
        Ok(JsonView::List(items)) => match types::text_list(items) {
            Some(list) => list,
            None => Seq::empty(),
        },
        _ => Seq::empty(),
    }
}

/// Reads the texts of a JSON list.
pub fn read_origins(json: &str) -> (origins: Vec<String>)
    ensures
        text::texts(origins@) == origins_of(json@),
{
    let origins: Vec<String> = match Json::parse(json) {
        Ok(value) => match value.as_list() {
            Some(items) => match types::read_text_list(items) {
                Some(list) => list,
                None => Vec::new(),
            },
            None => Vec::new(),
        },
        Err(_) => Vec::new(),
    };
    assert(text::texts(origins@) =~= origins_of(json@));
    origins
}

impl ClientRowView {
    /// The client that a row stands for.
    pub open spec fn resolved(self) -> ClientView {
        ClientView {
            id: self.id,
            client_key: self.client_key,
            client_type: self.client_type,
            scopes: self.scopes,
            allowed_origins: match self.allowed_origins {
                Some(json) => Some(origins_of(json)),
                None => None,
            },
        }
    }
}

fn resolved(row: ClientRow) -> (client: ResolvedClient)
    ensures
        client@ == row@.resolved(),
{
    let allowed_origins = match row.allowed_origins {
        Some(json) => Some(read_origins(json.as_str())),
        None => None,
    };
    ResolvedClient {
        id: row.id,
        client_key: row.client_key,
        client_type: row.client_type,
        scopes: row.scopes,
        allowed_origins,
    }
}

/// Whether a confidential client is who it says: it is known and active, and the
/// secret is its own. Which of the two fails is not told.
pub open spec fn confidential_verdict(row: Option<ClientRowView>, secret: Seq<char>) -> Result<
    ClientView,
    ErrorView,
> {
    match row {
        None => Err(ErrorView::Auth("invalid client credentials"@)),
        Some(r) => if r.client_secret_hash != crypto::text_hash(secret) {
            Err(ErrorView::Auth("invalid client credentials"@))
        } else if r.client_type != "confidential"@ {
            Err(
                ErrorView::Auth("this endpoint requires confidential client authentication"@),
            )
        } else {
            Ok(r.resolved())
        },
    }
}

/// Authenticates a confidential client by its key and secret.
pub fn authenticate_confidential(row: Option<ClientRow>, client_secret: &str) -> (client: Result<
    ResolvedClient,
    AppError,
>)
    ensures
        crate::error::outcome(client) == confidential_verdict(row_view(row), client_secret@),
{
    let secret_hash = crypto::hash_text(client_secret);
    let row = match row {
        Some(row) => row,
        None => {
            return Err(AppError::Auth("invalid client credentials".to_owned()));
        },
    };
    proof {
        vstd::utf8::encode_utf8_decode_utf8(row.client_secret_hash@);
        vstd::utf8::encode_utf8_decode_utf8(secret_hash@);
    }
    if !crypto::ct_eq(
        row.client_secret_hash.as_str().as_bytes(),
        secret_hash.as_str().as_bytes(),
    ) {
        return Err(AppError::Auth("invalid client credentials".to_owned()));
    }
    if !text::same_text(row.client_type.as_str(), "confidential") {
        return Err(
            AppError::Auth(
                "this endpoint requires confidential client authentication".to_owned(),
            ),
        );
    }
    Ok(resolved(row))
}

/// Whether a public client may be used from an origin: from any, unless the
/// client lists some.
pub open spec fn public_verdict(row: Option<ClientRowView>, origin: Option<Seq<char>>) -> Result<
    ClientView,
    ErrorView,
> {
    match row {
        None => Err(ErrorView::Auth("unknown client"@)),
        Some(r) => if r.client_type != "public"@ {
            Err(ErrorView::Auth("this client is not registered as a public client"@))
        } else {
            let allowed = match r.allowed_origins {
                Some(json) => origins_of(json),
                None => Seq::empty(),
            };
            if allowed.len() == 0 {
                Ok(r.resolved())
            } else {
                match origin {
                    None => Err(ErrorView::Auth("Origin header required for public clients"@)),
                    Some(o) => if allowed.contains(o) {
                        Ok(r.resolved())
                    } else {
                        Err(ErrorView::Auth("origin not allowed for this client"@))
                    },
                }
            }
        },
    }
}

/// Authenticates a public client by its key and the request's origin. The proof
/// of possession that such a client gives is checked where it gives it.
pub fn authenticate_public(row: Option<ClientRow>, origin: Option<&str>) -> (client: Result<
    ResolvedClient,
    AppError,
>)
    ensures
        crate::error::outcome(client) == public_verdict(row_view(row), text::opt_str(origin)),
{
    let row = match row {
        Some(row) => row,
        None => {
            return Err(AppError::Auth("unknown client".to_owned()));
        },
    };
    if !text::same_text(row.client_type.as_str(), "public") {
        return Err(
            AppError::Auth("this client is not registered as a public client".to_owned()),
        );
    }
    if let Some(json) = &row.allowed_origins {
        let allowed = read_origins(json.as_str());
        assert(text::texts(allowed@).len() == allowed@.len());
        if allowed.len() > 0 {
            match origin {
                None => {
                    return Err(
                        AppError::Auth("Origin header required for public clients".to_owned()),
                    );
                },
                Some(o) => if !text::list_contains(&allowed, o) {
                    return Err(AppError::Auth("origin not allowed for this client".to_owned()));
                },
            }
        }
    }
    Ok(resolved(row))
}

/// A client that is known.
pub open spec fn known_client(row: Option<ClientRowView>) -> Result<ClientView, ErrorView> {
    match row {
        Some(r) => Ok(r.resolved()),
        None => Err(ErrorView::Auth("unknown client"@)),
    }
}

/// Finds a client by its key alone, where the caller proves who they are by other
/// means.
pub fn resolve_client_by_key(row: Option<ClientRow>) -> (client: Result<ResolvedClient, AppError>)
    ensures
        crate::error::outcome(client) == known_client(row_view(row)),
{
    match row {
        Some(row) => Ok(resolved(row)),
        None => Err(AppError::Auth("unknown client".to_owned())),
    }
}

/// A client is authenticated as confidential only with the secret whose hash is
/// stored, and as public only from an origin that it lists, if it lists any.
pub proof fn law_clients_prove_who_they_are(
    row: Option<ClientRowView>,
    secret: Seq<char>,
    origin: Option<Seq<char>>,
)
    ensures
        confidential_verdict(row, secret) is Ok <==> (row matches Some(r) && r.client_secret_hash
            == crypto::text_hash(secret) && r.client_type == "confidential"@),
        public_verdict(row, origin) matches Ok(client) ==> (client.allowed_origins matches Some(list)
            ==> list.len() == 0 || (origin matches Some(o) && list.contains(o))),
        confidential_verdict(row, secret) is Ok ==> public_verdict(row, origin) is Err,
{
    reveal_strlit("confidential");
    reveal_strlit("public");
    assert("confidential"@.len() != "public"@.len());
}

/// Whether a token's scopes are allowed, given which of them the client's cover:
/// `atproto` must be among them, and each must be covered.
pub open spec fn scopes_allowed(token: Seq<Seq<char>>, covered: Seq<bool>) -> Result<(), ErrorView> {
    if !token.contains("atproto"@) {
        Err(ErrorView::BadRequest("token must include the 'atproto' scope"@))
    } else {
        match first_uncovered(covered) {
            None => Ok(()),
            Some(i) => Err(
                ErrorView::BadRequest("scope '"@ + token[i] + "' is not allowed for this client"@),
            ),
        }
    }
}

/// The index of the first scope that is not covered.
pub open spec fn first_uncovered(covered: Seq<bool>) -> Option<int>
    decreases covered.len(),
{
    if covered.len() == 0 {
        None
    } else {
        match first_uncovered(covered.drop_last()) {
            Some(i) => Some(i),
            None => if covered.last() {
                None
            } else {
                Some(covered.len() - 1)
            },
        }
    }
}

proof fn lemma_uncovered_prefix(covered: Seq<bool>, n: int)
    requires
        0 <= n <= covered.len(),
        first_uncovered(covered.take(n)) is Some,
    ensures
        first_uncovered(covered) == first_uncovered(covered.take(n)),
    decreases covered.len() - n,
{
    if n < covered.len() {
        assert(covered.take(n + 1).drop_last() =~= covered.take(n));
        lemma_uncovered_prefix(covered, n + 1);
    } else {
        assert(covered.take(n) =~= covered);
    }
}

/// Checks that a token's scopes are allowed. `covered` says, for each of them,
/// whether the client's effective scopes cover it, with all the actions that it
/// grants.
pub fn validate_scopes(token: &Vec<String>, covered: &Vec<bool>) -> (result: Result<(), AppError>)
    requires
        covered@.len() == token@.len(),
    ensures
        crate::error::unit_outcome(result) == scopes_allowed(text::texts(token@), covered@),
{
    if !text::list_contains(token, "atproto") {
        return Err(AppError::BadRequest("token must include the 'atproto' scope".to_owned()));
    }
    for i in 0..covered.len()
        invariant
            covered@.len() == token@.len(),
            text::texts(token@).contains("atproto"@),
            first_uncovered(covered@.take(i as int)) is None,
    {
        assert(covered@.take(i + 1).drop_last() =~= covered@.take(i as int));
        if !covered[i] {
            proof {
                lemma_uncovered_prefix(covered@, i + 1);
                assert(text::texts(token@)[i as int] == token@[i as int]@);
            }
            return Err(
                AppError::BadRequest(
                    text::cat3("scope '", token[i].as_str(), "' is not allowed for this client"),
                ),
            );
        }
    }
    assert(covered@.take(covered@.len() as int) =~= covered@);
    Ok(())
}

/// A token is allowed just if it names `atproto` and each of its scopes is
/// covered.
pub proof fn law_allowed_tokens_are_covered(token: Seq<Seq<char>>, covered: Seq<bool>)
    requires
        token.len() == covered.len(),
    ensures
        scopes_allowed(token, covered) is Ok <==> token.contains("atproto"@) && forall|i: int|
            0 <= i < covered.len() ==> covered[i],
{
    lemma_first_uncovered(covered);
}

proof fn lemma_first_uncovered(covered: Seq<bool>)
    ensures
        match first_uncovered(covered) {
            None => forall|i: int| 0 <= i < covered.len() ==> covered[i],
            Some(i) => 0 <= i < covered.len() && !covered[i],
        },
    decreases covered.len(),
{
    if covered.len() > 0 {
        let head = covered.drop_last();
        lemma_first_uncovered(head);
        match first_uncovered(head) {
            Some(i) => {
                assert(covered[i] == head[i]);
            },
            None => {
                assert forall|i: int| 0 <= i < covered.len() - 1 implies covered[i] by {
                    assert(head[i] == covered[i]);
                }
            },
        }
    }
}

/// A client's effective scopes: each of its own, and before an `include:` scope
/// what that expands to.
pub open spec fn effective_of(scopes: Seq<Seq<char>>, expansions: Seq<Seq<Seq<char>>>) -> Seq<Seq<char>>
    decreases scopes.len(),
{
    if scopes.len() == 0 {
        Seq::empty()
    } else {
        let i = scopes.len() - 1;
        let head = effective_of(scopes.drop_last(), expansions);
        let expanded = if text::has_prefix(scopes.last(), "include:"@) {
            head + expansions[i]
        } else {
            head
        };
        expanded.push(scopes.last())
    }
}

/// What the lists of a list hold.
pub open spec fn text_lists(lists: Seq<Vec<String>>) -> Seq<Seq<Seq<char>>> {
    lists.map_values(|list: Vec<String>| text::texts(list@))
}

/// Whether a scope stands for a permission set that must be expanded.
pub fn is_include(scope: &str) -> (yes: bool)
    ensures
        yes == text::has_prefix(scope@, "include:"@),
{
    text::starts_with(scope, "include:")
}

/// A client's effective scopes. `expansions` holds, for each scope, what it
/// expands to.
pub fn effective_scopes(scopes: &Vec<String>, expansions: &Vec<Vec<String>>) -> (effective: Vec<
    String,
>)
    requires
        expansions@.len() == scopes@.len(),
    ensures
        text::texts(effective@) == effective_of(text::texts(scopes@), text_lists(expansions@)),
{
    let ghost all = text::texts(scopes@);
    let ghost lists = text_lists(expansions@);
    let mut effective: Vec<String> = Vec::new();
    assert(text::texts(effective@) =~= effective_of(all.take(0), lists));
    for i in 0..scopes.len()
        invariant
            expansions@.len() == scopes@.len(),
            all == text::texts(scopes@),
            lists == text_lists(expansions@),
            text::texts(effective@) == effective_of(all.take(i as int), lists),
    {
        assert(all.take(i + 1).drop_last() =~= all.take(i as int));
        assert(all.take(i + 1).last() == scopes@[i as int]@);
        let ghost before = text::texts(effective@);
        if is_include(scopes[i].as_str()) {
            let mut more = text::clone_list(&expansions[i]);
            let ghost added = more@;
            let ghost had = effective@;
            effective.append(&mut more);
            assert(text::texts(effective@) =~= before + text::texts(added));
            assert(lists[i as int] == text::texts(expansions@[i as int]@));
        }
        let ghost middle = text::texts(effective@);
        effective.push(scopes[i].clone());
        assert(text::texts(effective@) =~= middle.push(scopes@[i as int]@));
    }
    assert(all.take(all.len() as int) =~= all);
    effective
}

/// A parameter of a permission in a lexicon. A single text and a list of texts
/// are kept apart.
#[derive(Debug)]
pub enum LexValue {
    List(Vec<String>),
    Bool(bool),
    Scalar(String),
}

/// What a [`LexValue`] holds.
#[verifier::ext_equal]
pub enum LexValueView {
    List(Seq<Seq<char>>),
    Bool(bool),
    Scalar(Seq<char>),
}

impl View for LexValue {
    type V = LexValueView;

    open spec fn view(&self) -> LexValueView {
        match self {
            LexValue::List(items) => LexValueView::List(text::texts(items@)),
            LexValue::Bool(b) => LexValueView::Bool(*b),
            LexValue::Scalar(t) => LexValueView::Scalar(t@),
        }
    }
}

/// A permission of a permission set.
#[derive(Debug)]
pub struct LexPermission {
    pub resource: String,
    pub params: Vec<(String, LexValue)>,
}

/// What a [`LexPermission`] says.
#[verifier::ext_equal]
pub struct PermissionView {
    pub resource: Seq<char>,
    pub params: Seq<(Seq<char>, LexValueView)>,
}

impl View for LexPermission {
    type V = PermissionView;

    open spec fn view(&self) -> PermissionView {
        PermissionView { resource: self.resource@, params: param_views(self.params@) }
    }
}

/// What parameters say.
pub open spec fn param_views(params: Seq<(String, LexValue)>) -> Seq<(Seq<char>, LexValueView)> {
    params.map_values(|p: (String, LexValue)| (p.0@, p.1@))
}

/// The value of a parameter, if it has one: a list that holds anything but texts
/// has none, and what cannot stand in a permission is kept as an empty text, so
/// that its key still counts.
pub open spec fn lex_value_of(value: JsonView) -> Option<LexValueView> {
    match value {
        JsonView::List(items) => match types::text_list(items) {
            Some(list) => Some(LexValueView::List(list)),
            None => None,
        },
        JsonView::Bool(b) => Some(LexValueView::Bool(b)),
        JsonView::Text(t) => Some(LexValueView::Scalar(t)),
        _ => Some(LexValueView::Scalar(Seq::empty())),
    }
}

/// The parameters of a permission: all its members but the resource and the type.
pub open spec fn lex_params_of(members: Seq<(Seq<char>, JsonView)>) -> Seq<(Seq<char>, LexValueView)>
    decreases members.len(),
{
    if members.len() == 0 {
        Seq::empty()
    } else {
        let head = lex_params_of(members.drop_last());
        let (key, value) = members.last();
        if key == "resource"@ || key == "type"@ {
            head
        } else {
            match lex_value_of(value) {
                Some(v) => head.push((key, v)),
                None => head,
            }
        }
    }
}

/// The permission that an entry of a permission set states, if it names a
/// resource.
pub open spec fn lex_permission_of(value: JsonView) -> Option<PermissionView> {
    match value {
        JsonView::Object(members) => match value.get_str("resource"@) {
            Some(resource) => Some(PermissionView { resource, params: lex_params_of(members) }),
            None => None,
        },
        _ => None,
    }
}

fn lex_value(value: &Json) -> (result: Option<LexValue>)
    ensures
        match result {
            Some(v) => lex_value_of(value@) == Some(v@),
            None => lex_value_of(value@) is None,
        },
{
    proof {
        crate::json::lemma_json_views(*value);
    }
    match value {
        Json::List(items) => match types::read_text_list(items) {
            Some(list) => Some(LexValue::List(list)),
            None => None,
        },
        Json::Bool(b) => Some(LexValue::Bool(*b)),
        Json::Text(t) => Some(LexValue::Scalar(t.clone())),
        _ => {
            let empty = String::new();
            assert(empty@ =~= Seq::empty());
            Some(LexValue::Scalar(empty))
        },
    }
}

/// Reads an entry of a permission set, keeping single texts and lists apart.
pub fn lex_permission(value: &Json) -> (permission: Option<LexPermission>)
    ensures
        match permission {
            Some(p) => lex_permission_of(value@) == Some(p@),
            None => lex_permission_of(value@) is None,
        },
{
    proof {
        crate::json::lemma_json_views(*value);
    }
    let members: &Vec<(String, Json)> = match value {
        Json::Object(members) => members,
        _ => {
            return None;
        },
    };
    let resource = match value.get_str("resource") {
        Some(resource) => resource.to_owned(),
        None => {
            return None;
        },
    };
    let ghost views = crate::json::member_views(members@);
    let mut params: Vec<(String, LexValue)> = Vec::new();
    assert(param_views(params@) =~= lex_params_of(views.take(0)));
    for i in 0..members.len()
        invariant
            views == crate::json::member_views(members@),
            param_views(params@) == lex_params_of(views.take(i as int)),
    {
        let ghost before = param_views(params@);
        assert(views.take(i + 1).drop_last() =~= views.take(i as int));
        assert(views.take(i + 1).last() == (members@[i as int].0@, members@[i as int].1@));
        let key = members[i].0.as_str();
        if !text::same_text(key, "resource") && !text::same_text(key, "type") {
            if let Some(v) = lex_value(&members[i].1) {
                params.push((key.to_owned(), v));
                assert(param_views(params@) =~= before.push((key@, v@)));
            }
        }
    }
    assert(views.take(views.len() as int) =~= views);
    Some(LexPermission { resource, params })
}

/// The permissions that entries state: those that name no resource are passed
/// over.
pub open spec fn entries_of(entries: Seq<JsonView>) -> Seq<PermissionView>
    decreases entries.len(),
{
    if entries.len() == 0 {
        Seq::empty()
    } else {
        let head = entries_of(entries.drop_last());
        match lex_permission_of(entries.last()) {
            Some(p) => head.push(p),
            None => head,
        }
    }
}

/// A member of a member.
pub open spec fn member_at(value: Option<JsonView>, key: Seq<char>) -> Option<JsonView> {
    match value {
        Some(v) => v.get(key),
        None => None,
    }
}

/// The permissions that a permission set's lexicon states, if it has a list of
/// them.
pub open spec fn permission_set_of(lexicon: JsonView) -> Option<Seq<PermissionView>> {
    match member_at(member_at(lexicon.get("defs"@), "main"@), "permissions"@) {
        Some(JsonView::List(entries)) => Some(entries_of(entries)),
        _ => None,
    }
}

/// What a list of permissions says.
pub open spec fn permission_views(list: Seq<LexPermission>) -> Seq<PermissionView> {
    list.map_values(|p: LexPermission| p@)
}

/// Reads the permissions that a permission set's lexicon states. A missing or
/// malformed set contributes nothing.
pub fn read_permission_set(lexicon: &Json) -> (permissions: Option<Vec<LexPermission>>)
    ensures
        match permissions {
            Some(list) => permission_set_of(lexicon@) == Some(permission_views(list@)),
            None => permission_set_of(lexicon@) is None,
        },
{
    let main: Option<&Json> = match lexicon.get("defs") {
        Some(defs) => defs.get("main"),
        None => None,
    };
    let listed: Option<&Json> = match main {
        Some(m) => m.get("permissions"),
        None => None,
    };
    let entries: &Vec<Json> = match listed {
        Some(value) => match value.as_list() {
            Some(entries) => entries,
            None => {
                return None;
            },
        },
        None => {
            return None;
        },
    };
    let ghost views = crate::json::json_views(entries@);
    let mut list: Vec<LexPermission> = Vec::new();
    assert(permission_views(list@) =~= entries_of(views.take(0)));
    for i in 0..entries.len()
        invariant
            views == crate::json::json_views(entries@),
            permission_views(list@) == entries_of(views.take(i as int)),
    {
        let ghost before = permission_views(list@);
        assert(views.take(i + 1).drop_last() =~= views.take(i as int));
        assert(views.take(i + 1).last() == entries@[i as int]@);
        if let Some(p) = lex_permission(&entries[i]) {
            list.push(p);
            assert(permission_views(list@) =~= before.push(p@));
        }
    }
    assert(views.take(views.len() as int) =~= views);
    Some(list)
}

/// A permission that a set may grant.
#[derive(Debug)]
pub enum IncludedPermission {
    Repo { collection: Vec<String>, action: Vec<String> },
    Rpc { lxm: Vec<String>, aud: String },
    Space {
        space_type: String,
        authority: String,
        skey: String,
        collection: Vec<String>,
        action: Vec<String>,
        manage: Vec<String>,
    },
}

/// The scope for an action on a collection.
pub open spec fn repo_scope(collection: Seq<char>, action: Seq<char>) -> Seq<char> {
    "repo:"@ + collection + "?action="@ + action
}

/// The scopes for actions on a collection.
pub open spec fn collection_scopes(collection: Seq<char>, actions: Seq<Seq<char>>) -> Seq<Seq<char>> {
    actions.map_values(|action: Seq<char>| repo_scope(collection, action))
}

/// The scopes for actions on collections: one for each action on each.
pub open spec fn repo_scopes(collections: Seq<Seq<char>>, actions: Seq<Seq<char>>) -> Seq<Seq<char>>
    decreases collections.len(),
{
    if collections.len() == 0 {
        Seq::empty()
    } else {
        repo_scopes(collections.drop_last(), actions) + collection_scopes(collections.last(), actions)
    }
}

/// The scopes for calling methods: each names the audience, without which a
/// scope grants nothing.
pub open spec fn rpc_scopes(lxm: Seq<Seq<char>>, aud: Seq<char>) -> Seq<Seq<char>> {
    lxm.map_values(|m: Seq<char>| "rpc:"@ + m + "?aud="@ + url::encoded(aud))
}

/// Parameters of one name, each behind an ampersand.
pub open spec fn named_params(name: Seq<char>, values: Seq<Seq<char>>) -> Seq<char>
    decreases values.len(),
{
    if values.len() == 0 {
        Seq::empty()
    } else {
        named_params(name, values.drop_last()) + "&"@ + name + "="@ + values.last()
    }
}

/// Texts in percent encoding.
pub open spec fn all_encoded(values: Seq<Seq<char>>) -> Seq<Seq<char>> {
    values.map_values(|v: Seq<char>| url::encoded(v))
}

/// The scope for a space: one that carries every parameter, because what a grant
/// on a space permits cannot be parted by action.
pub open spec fn space_scope(
    space_type: Seq<char>,
    authority: Seq<char>,
    skey: Seq<char>,
    collections: Seq<Seq<char>>,
    actions: Seq<Seq<char>>,
    manage: Seq<Seq<char>>,
) -> Seq<char> {
    "space:"@ + space_type + "?authority="@ + url::encoded(authority) + "&skey="@ + url::encoded(skey)
        + named_params("collection"@, all_encoded(collections)) + named_params("action"@, actions)
        + named_params("manage"@, manage)
}

/// The scopes that a permission stands for.
pub open spec fn included_scopes_of(permission: IncludedPermission) -> Seq<Seq<char>> {
    match permission {
        IncludedPermission::Repo { collection, action } => repo_scopes(
            text::texts(collection@),
            text::texts(action@),
        ),
        IncludedPermission::Rpc { lxm, aud } => rpc_scopes(text::texts(lxm@), aud@),
        IncludedPermission::Space { space_type, authority, skey, collection, action, manage } => seq![
            space_scope(
                space_type@,
                authority@,
                skey@,
                text::texts(collection@),
                text::texts(action@),
                text::texts(manage@),
            ),
        ],
    }
}

fn push_repo_scopes(collections: &Vec<String>, actions: &Vec<String>, out: &mut Vec<String>)
    ensures
        text::texts(final(out)@) == text::texts(old(out)@) + repo_scopes(
            text::texts(collections@),
            text::texts(actions@),
        ),
{
    let ghost start = text::texts(out@);
    let ghost names = text::texts(collections@);
    let ghost words = text::texts(actions@);
    assert(start + repo_scopes(names.take(0), words) =~= start);
    for i in 0..collections.len()
        invariant
            names == text::texts(collections@),
            words == text::texts(actions@),
            text::texts(out@) == start + repo_scopes(names.take(i as int), words),
    {
        assert(names.take(i + 1).drop_last() =~= names.take(i as int));
        let collection = collections[i].as_str();
        assert(names.take(i + 1).last() == collection@);
        let ghost before = text::texts(out@);
        let ghost wanted = collection_scopes(collection@, words);
        assert(before + wanted.take(0) =~= before);
        for k in 0..actions.len()
            invariant
                words == text::texts(actions@),
                wanted == collection_scopes(collection@, words),
                text::texts(out@) == before + wanted.take(k as int),
        {
            let ghost middle = text::texts(out@);
            let scope = text::cat4("repo:", collection, "?action=", actions[k].as_str());
            assert(wanted[k as int] == scope@);
            assert(wanted.take(k + 1) =~= wanted.take(k as int).push(scope@));
            out.push(scope);
            assert(text::texts(out@) =~= middle.push(scope@));
            assert(text::texts(out@) =~= before + wanted.take(k + 1));
        }
        assert(wanted.take(wanted.len() as int) =~= wanted);
        assert(text::texts(out@) =~= start + repo_scopes(names.take(i + 1), words));
    }
    assert(names.take(names.len() as int) =~= names);
}

fn push_params(scope: &mut String, name: &str, values: &Vec<String>)
    ensures
        final(scope)@ == old(scope)@ + named_params(name@, text::texts(values@)),
{
    let ghost start = scope@;
    let ghost all = text::texts(values@);
    assert(start + named_params(name@, all.take(0)) =~= start);
    for i in 0..values.len()
        invariant
            all == text::texts(values@),
            scope@ == start + named_params(name@, all.take(i as int)),
    {
        assert(all.take(i + 1).drop_last() =~= all.take(i as int));
        assert(all.take(i + 1).last() == values@[i as int]@);
        scope.append("&");
        scope.append(name);
        scope.append("=");
        scope.append(values[i].as_str());
        assert(scope@ =~= start + named_params(name@, all.take(i + 1)));
    }
    assert(all.take(all.len() as int) =~= all);
}

fn encode_all(values: &Vec<String>) -> (out: Vec<String>)
    ensures
        text::texts(out@) == all_encoded(text::texts(values@)),
{
    let mut out: Vec<String> = Vec::new();
    for i in 0..values.len()
        invariant
            out@.len() == i,
            forall|j: int| 0 <= j < i ==> (#[trigger] out@[j])@ == url::encoded(values@[j]@),
    {
        out.push(url::encode(values[i].as_str()));
    }
    assert(text::texts(out@) =~= all_encoded(text::texts(values@)));
    out
}

/// The scopes that a permission stands for.
pub fn included_scopes(permission: &IncludedPermission) -> (scopes: Vec<String>)
    ensures
        text::texts(scopes@) == included_scopes_of(*permission),
{
    let mut out: Vec<String> = Vec::new();
    match permission {
        IncludedPermission::Repo { collection, action } => {
            push_repo_scopes(collection, action, &mut out);
            assert(text::texts(out@) =~= included_scopes_of(*permission));
        },
        IncludedPermission::Rpc { lxm, aud } => {
            for i in 0..lxm.len()
                invariant
                    out@.len() == i,
                    forall|j: int|
                        0 <= j < i ==> (#[trigger] out@[j])@ == "rpc:"@ + lxm@[j]@ + "?aud="@
                            + url::encoded(aud@),
            {
                let encoded = url::encode(aud.as_str());
                out.push(text::cat4("rpc:", lxm[i].as_str(), "?aud=", encoded.as_str()));
            }
            assert(text::texts(out@) =~= rpc_scopes(text::texts(lxm@), aud@));
        },
        IncludedPermission::Space { space_type, authority, skey, collection, action, manage } => {
            let encoded_authority = url::encode(authority.as_str());
            let encoded_skey = url::encode(skey.as_str());
            let mut scope = text::cat4(
                "space:",
                space_type.as_str(),
                "?authority=",
                encoded_authority.as_str(),
            );
            scope.append("&skey=");
            scope.append(encoded_skey.as_str());
            let collections = encode_all(collection);
            push_params(&mut scope, "collection", &collections);
            push_params(&mut scope, "action", action);
            push_params(&mut scope, "manage", manage);
            out.push(scope);
            assert(text::texts(out@) =~= included_scopes_of(*permission));
        },
    }
    out
}

/// The scopes that the permissions of a set stand for, in their order.
pub open spec fn expansion_of(permissions: Seq<IncludedPermission>) -> Seq<Seq<char>>
    decreases permissions.len(),
{
    if permissions.len() == 0 {
        Seq::empty()
    } else {
        expansion_of(permissions.drop_last()) + included_scopes_of(permissions.last())
    }
}

/// The scopes that a permission set expands to, given the permissions that its
/// authority lets it grant.
pub fn expand_permission_set(permissions: &Vec<IncludedPermission>) -> (scopes: Vec<String>)
    ensures
        text::texts(scopes@) == expansion_of(permissions@),
{
    let mut out: Vec<String> = Vec::new();
    assert(text::texts(out@) =~= expansion_of(permissions@.take(0)));
    for i in 0..permissions.len()
        invariant
            text::texts(out@) == expansion_of(permissions@.take(i as int)),
    {
        assert(permissions@.take(i + 1).drop_last() =~= permissions@.take(i as int));
        let ghost before = out@;
        let mut more = included_scopes(&permissions[i]);
        let ghost added = more@;
        out.append(&mut more);
        assert(text::texts(out@) =~= text::texts(before) + text::texts(added));
    }
    assert(permissions@.take(permissions@.len() as int) =~= permissions@);
    out
}

/// Whether a verifier answers a PKCE challenge: the challenge is the URL-safe
/// base64 of the verifier's SHA-256 digest.
pub open spec fn pkce_answers(challenge: Seq<char>, verifier: Seq<char>) -> bool {
    crypto::base64url_of(crypto::sha256_of(vstd::utf8::encode_utf8(verifier))) == challenge
}

/// Verifies a PKCE challenge against a verifier.
pub fn verify_pkce(challenge: &str, verifier: &str) -> (yes: bool)
    ensures
        yes == pkce_answers(challenge@, verifier@),
{
    let digest = crypto::sha256(verifier.as_bytes());
    let computed = crypto::base64url_encode(digest.as_slice());
    proof {
        vstd::utf8::encode_utf8_decode_utf8(computed@);
        vstd::utf8::encode_utf8_decode_utf8(challenge@);
    }
    crypto::ct_eq(computed.as_str().as_bytes(), challenge.as_bytes())
}

/// What is known of a client is what is stored of it, and its origins are the texts
/// of the list that is stored; what is no such list allows for none by name.
pub proof fn law_clients_are_as_stored(row: ClientRowView, json: Seq<char>)
    ensures
        row.resolved().id == row.id,
        row.resolved().client_key == row.client_key,
        row.resolved().client_type == row.client_type,
        row.resolved().scopes == row.scopes,
        row.resolved().allowed_origins is Some <==> row.allowed_origins is Some,
        row.allowed_origins matches Some(stored) ==> row.resolved().allowed_origins == Some(
            origins_of(stored),
        ),
        crate::json::json_parsed(vstd::utf8::encode_utf8(json)) matches Ok(JsonView::List(items)) ==> ((forall|
            i: int,
        |
            0 <= i < items.len() ==> (#[trigger] items[i]) is Text) ==> origins_of(json).len() == items.len()
            && forall|i: int|
            0 <= i < items.len() ==> (#[trigger] items[i]) == JsonView::Text(origins_of(json)[i])),
        origins_of(json).len() > 0 ==> crate::json::json_parsed(vstd::utf8::encode_utf8(json)) matches Ok(
            JsonView::List(_),
        ),
{
}

/// A public client is let in just if it is known as one, and comes from an origin
/// that it allows, or allows for any by naming none. Whoever is refused is refused
/// for want of authentication.
pub proof fn law_when_public_clients_are_let_in(
    row: ClientRowView,
    origin: Option<Seq<char>>,
    client: ClientView,
)
    ensures
        public_verdict(Some(row), origin) == Ok::<ClientView, ErrorView>(client) <==> {
            &&& client == row.resolved()
            &&& row.client_type == "public"@
            &&& row.allowed_origins matches Some(stored) ==> origins_of(stored).len() == 0 || (origin matches Some(
                o,
            ) && origins_of(stored).contains(o))
        },
        public_verdict(Some(row), origin) matches Err(error) ==> error is Auth,
        public_verdict(None, origin) matches Err(ErrorView::Auth(_)),
        known_client(Some(row)) == Ok::<ClientView, ErrorView>(row.resolved()),
        known_client(None) matches Err(ErrorView::Auth(_)),
        forall|secret: Seq<char>|
            (#[trigger] confidential_verdict(Some(row), secret) matches Ok(found) ==> found == row.resolved()) && (
            confidential_verdict(Some(row), secret) matches Err(error) ==> error is Auth),
{
}

proof fn lemma_first_uncovered_is_first(covered: Seq<bool>)
    ensures
        first_uncovered(covered) matches Some(i) ==> 0 <= i < covered.len() && !covered[i] && forall|j: int|
            0 <= j < i ==> covered[j],
    decreases covered.len(),
{
    if covered.len() > 0 {
        let head = covered.drop_last();
        lemma_first_uncovered_is_first(head);
        lemma_first_uncovered(head);
        if let Some(i) = first_uncovered(head) {
            assert forall|j: int| 0 <= j < i implies covered[j] by {
                assert(head[j]);
            }
        } else {
            assert forall|j: int| 0 <= j < head.len() implies covered[j] by {
                assert(head[j]);
            }
        }
    }
}

/// A token that asks for too much is refused with the first scope that is not
/// allowed, as a bad request.
pub proof fn law_the_first_scope_that_is_not_allowed_is_named(
    token: Seq<Seq<char>>,
    covered: Seq<bool>,
    i: int,
)
    requires
        token.len() == covered.len(),
        token.contains("atproto"@),
        0 <= i < covered.len(),
        !covered[i],
        forall|j: int| 0 <= j < i ==> covered[j],
    ensures
        scopes_allowed(token, covered) == Err::<(), ErrorView>(
            ErrorView::BadRequest("scope '"@ + token[i] + "' is not allowed for this client"@),
        ),
{
    lemma_first_uncovered_is_first(covered);
    lemma_first_uncovered(covered);
    if let Some(k) = first_uncovered(covered) {
        if k < i {
            assert(covered[k]);
        } else if i < k {
            assert(covered[i]);
        }
    }
}

/// The scopes of a client stay in order, and each that includes a permission set
/// has what the set expands to put before it; no other scope brings anything along.
pub proof fn law_includes_bring_their_expansion(
    a: Seq<Seq<char>>,
    b: Seq<Seq<char>>,
    of_a: Seq<Seq<Seq<char>>>,
    of_b: Seq<Seq<Seq<char>>>,
    scope: Seq<char>,
    expansion: Seq<Seq<char>>,
)
    requires
        a.len() == of_a.len(),
        b.len() == of_b.len(),
    ensures
        effective_of(a + b, of_a + of_b) == effective_of(a, of_a) + effective_of(b, of_b),
        effective_of(seq![scope], seq![expansion]) == (if text::has_prefix(scope, "include:"@) {
            expansion.push(scope)
        } else {
            seq![scope]
        }),
        effective_of(Seq::empty(), Seq::empty()).len() == 0,
    decreases b.len(),
{
    reveal_with_fuel(effective_of, 2);
    let none = Seq::<Seq<char>>::empty();
    assert(seq![scope].drop_last() =~= none);
    assert(effective_of(none, seq![expansion]) =~= none);
    assert(none + expansion =~= expansion);
    assert(none.push(scope) =~= seq![scope]);
    if b.len() == 0 {
        assert(a + b =~= a);
        assert(of_a + of_b =~= of_a);
        assert(effective_of(a, of_a) + effective_of(b, of_b) =~= effective_of(a, of_a));
    } else {
        let shorter = b.drop_last();
        let of_shorter = of_b.drop_last();
        law_includes_bring_their_expansion(a, shorter, of_a, of_shorter, scope, expansion);
        assert((a + b).drop_last() =~= a + shorter);
        lemma_expansions_beyond(a + shorter, of_a + of_b, of_a + of_shorter);
        lemma_expansions_beyond(shorter, of_b, of_shorter);
        assert((of_a + of_b)[a.len() + b.len() - 1] == of_b[b.len() - 1]);
        let x = effective_of(a, of_a);
        let y = effective_of(shorter, of_shorter);
        assert(((x + y) + of_b.last()).push(b.last()) =~= x + (y + of_b.last()).push(b.last()));
        assert((x + y).push(b.last()) =~= x + y.push(b.last()));
    }
}

proof fn lemma_expansions_beyond(
    scopes: Seq<Seq<char>>,
    more: Seq<Seq<Seq<char>>>,
    fewer: Seq<Seq<Seq<char>>>,
)
    requires
        scopes.len() <= more.len(),
        scopes.len() <= fewer.len(),
        forall|i: int| 0 <= i < scopes.len() ==> more[i] == fewer[i],
    ensures
        effective_of(scopes, more) == effective_of(scopes, fewer),
    decreases scopes.len(),
{
    if scopes.len() > 0 {
        lemma_expansions_beyond(scopes.drop_last(), more, fewer);
    }
}

/// A permission is an object that names its resource. Its parameters are its other
/// members but for its type, in order and with their values; a list that holds
/// anything but texts is passed over.
pub proof fn law_permissions_are_read_member_by_member(
    value: JsonView,
    a: Seq<(Seq<char>, JsonView)>,
    b: Seq<(Seq<char>, JsonView)>,
    key: Seq<char>,
    member: JsonView,
)
    ensures
        lex_permission_of(value) is Some <==> value.get_str("resource"@) is Some,
        lex_permission_of(value) matches Some(permission) ==> value.get_str("resource"@) == Some(
            permission.resource,
        ) && permission.params == lex_params_of(value->Object_0),
        lex_params_of(a + b) == lex_params_of(a) + lex_params_of(b),
        key == "resource"@ || key == "type"@ ==> lex_params_of(seq![(key, member)]).len() == 0,
        key != "resource"@ && key != "type"@ && !(member is List) ==> lex_params_of(seq![(key, member)])
            == seq![
            (
                key,
                match member {
                    JsonView::Bool(yes) => LexValueView::Bool(yes),
                    JsonView::Text(t) => LexValueView::Scalar(t),
                    _ => LexValueView::Scalar(Seq::empty()),
                },
            ),
        ],
        key != "resource"@ && key != "type"@ ==> (member matches JsonView::List(items) ==> match types::text_list(
            items,
        ) {
            Some(list) => lex_params_of(seq![(key, member)]) == seq![(key, LexValueView::List(list))],
            None => lex_params_of(seq![(key, member)]).len() == 0,
        }),
    decreases b.len(),
{
    reveal_with_fuel(lex_params_of, 2);
    assert(seq![(key, member)].drop_last() =~= Seq::empty());
    if b.len() == 0 {
        assert(a + b =~= a);
        assert(lex_params_of(a) + lex_params_of(b) =~= lex_params_of(a));
    } else {
        law_permissions_are_read_member_by_member(value, a, b.drop_last(), key, member);
        assert((a + b).drop_last() =~= a + b.drop_last());
        let x = lex_params_of(a);
        let y = lex_params_of(b.drop_last());
        if let Some(v) = lex_value_of(b.last().1) {
            assert((x + y).push((b.last().0, v)) =~= x + y.push((b.last().0, v)));
        }
    }
}

/// A permission set is the list `permissions` of a lexicon's main definition: the
/// entries that are permissions, in order. A lexicon without such a list holds none.
pub proof fn law_permission_sets_are_those_of_the_main_definition(
    lexicon: JsonView,
    a: Seq<JsonView>,
    b: Seq<JsonView>,
    entry: JsonView,
)
    ensures
        permission_set_of(lexicon) is Some <==> {
            &&& lexicon.get("defs"@) matches Some(defs)
            &&& defs.get("main"@) matches Some(main)
            &&& main.get("permissions"@) matches Some(JsonView::List(_))
        },
        permission_set_of(lexicon) matches Some(set) ==> set == entries_of(
            lexicon.get("defs"@)->0.get("main"@)->0.get("permissions"@)->0->List_0,
        ),
        entries_of(a + b) == entries_of(a) + entries_of(b),
        match lex_permission_of(entry) {
            Some(permission) => entries_of(seq![entry]) == seq![permission],
            None => entries_of(seq![entry]).len() == 0,
        },
    decreases b.len(),
{
    reveal_with_fuel(entries_of, 2);
    assert(seq![entry].drop_last() =~= Seq::empty());
    if b.len() == 0 {
        assert(a + b =~= a);
        assert(entries_of(a) + entries_of(b) =~= entries_of(a));
    } else {
        law_permission_sets_are_those_of_the_main_definition(lexicon, a, b.drop_last(), entry);
        assert((a + b).drop_last() =~= a + b.drop_last());
        let x = entries_of(a);
        let y = entries_of(b.drop_last());
        if let Some(p) = lex_permission_of(b.last()) {
            assert((x + y).push(p) =~= x + y.push(p));
        }
    }
}

/// A permission on repos becomes a scope for each collection and action, collection
/// by collection; and one on calls a scope for each method, for the audience.
pub proof fn law_a_scope_for_each_collection_and_action(
    a: Seq<Seq<char>>,
    b: Seq<Seq<char>>,
    actions: Seq<Seq<char>>,
    collection: Seq<char>,
    aud: Seq<char>,
)
    ensures
        repo_scopes(a + b, actions) == repo_scopes(a, actions) + repo_scopes(b, actions),
        repo_scopes(seq![collection], actions).len() == actions.len(),
        forall|i: int|
            0 <= i < actions.len() ==> repo_scopes(seq![collection], actions)[i] == "repo:"@ + collection
                + "?action="@ + (#[trigger] actions[i]),
        repo_scopes(Seq::empty(), actions).len() == 0,
        rpc_scopes(a, aud).len() == a.len(),
        forall|i: int|
            0 <= i < a.len() ==> rpc_scopes(a, aud)[i] == "rpc:"@ + (#[trigger] a[i]) + "?aud="@ + url::encoded(
                aud,
            ),
    decreases b.len(),
{
    reveal_with_fuel(repo_scopes, 2);
    let none = Seq::<Seq<char>>::empty();
    assert(seq![collection].drop_last() =~= none);
    assert(repo_scopes(seq![collection], actions) =~= collection_scopes(collection, actions));
    if b.len() == 0 {
        assert(a + b =~= a);
        assert(repo_scopes(a, actions) + repo_scopes(b, actions) =~= repo_scopes(a, actions));
    } else {
        law_a_scope_for_each_collection_and_action(a, b.drop_last(), actions, collection, aud);
        assert((a + b).drop_last() =~= a + b.drop_last());
        assert((repo_scopes(a, actions) + repo_scopes(b.drop_last(), actions)) + collection_scopes(
            b.last(),
            actions,
        ) =~= repo_scopes(a, actions) + (repo_scopes(b.drop_last(), actions) + collection_scopes(
            b.last(),
            actions,
        )));
    }
}

/// A permission on spaces becomes one scope: for the type, the authority and the
/// key, and then with a parameter for each collection, each action and each kind of
/// management, in this order.
pub proof fn law_a_parameter_for_each_value(
    space_type: Seq<char>,
    authority: Seq<char>,
    skey: Seq<char>,
    collections: Seq<Seq<char>>,
    actions: Seq<Seq<char>>,
    manage: Seq<Seq<char>>,
    value: Seq<char>,
)
    ensures
        space_scope(space_type, authority, skey, Seq::empty(), Seq::empty(), Seq::empty()) == "space:"@
            + space_type + "?authority="@ + url::encoded(authority) + "&skey="@ + url::encoded(skey),
        space_scope(
            space_type,
            authority,
            skey,
            collections.push(value),
            Seq::empty(),
            Seq::empty(),
        ) == space_scope(space_type, authority, skey, collections, Seq::empty(), Seq::empty())
            + "&collection="@ + url::encoded(value),
        space_scope(
            space_type,
            authority,
            skey,
            collections,
            actions.push(value),
            Seq::empty(),
        ) == space_scope(space_type, authority, skey, collections, actions, Seq::empty()) + "&action="@
            + value,
        space_scope(
            space_type,
            authority,
            skey,
            collections,
            actions,
            manage.push(value),
        ) == space_scope(space_type, authority, skey, collections, actions, manage) + "&manage="@ + value,
{
    let none = Seq::<Seq<char>>::empty();
    assert(all_encoded(none) =~= none);
    assert(all_encoded(collections.push(value)) =~= all_encoded(collections).push(url::encoded(value)));
    assert(all_encoded(collections).push(url::encoded(value)).drop_last() =~= all_encoded(collections));
    assert(actions.push(value).drop_last() =~= actions);
    assert(manage.push(value).drop_last() =~= manage);
    reveal_strlit("&");
    reveal_strlit("=");
    reveal_strlit("collection");
    reveal_strlit("action");
    reveal_strlit("manage");
    reveal_strlit("&collection=");
    reveal_strlit("&action=");
    reveal_strlit("&manage=");
    assert("&collection="@ =~= "&"@ + "collection"@ + "="@);
    assert("&action="@ =~= "&"@ + "action"@ + "="@);
    assert("&manage="@ =~= "&"@ + "manage"@ + "="@);
    let start = "space:"@ + space_type + "?authority="@ + url::encoded(authority) + "&skey="@ + url::encoded(
        skey,
    );
    assert(space_scope(space_type, authority, skey, none, none, none) =~= start);
    let of_collections = named_params("collection"@, all_encoded(collections));
    let of_actions = named_params("action"@, actions);
    let of_manage = named_params("manage"@, manage);
    assert(space_scope(space_type, authority, skey, collections.push(value), none, none) =~= start
        + of_collections + "&collection="@ + url::encoded(value));
    assert(space_scope(space_type, authority, skey, collections, none, none) =~= start + of_collections);
    assert(space_scope(space_type, authority, skey, collections, actions.push(value), none) =~= start
        + of_collections + of_actions + "&action="@ + value);
    assert(space_scope(space_type, authority, skey, collections, actions, none) =~= start + of_collections
        + of_actions);
    assert(space_scope(space_type, authority, skey, collections, actions, manage.push(value)) =~= start
        + of_collections + of_actions + of_manage + "&manage="@ + value);
}

/// A permission set expands to the scopes of its permissions, one permission after
/// the other.
pub proof fn law_sets_expand_permission_by_permission(
    a: Seq<IncludedPermission>,
    b: Seq<IncludedPermission>,
    permission: IncludedPermission,
)
    ensures
        expansion_of(a + b) == expansion_of(a) + expansion_of(b),
        expansion_of(seq![permission]) == included_scopes_of(permission),
        expansion_of(Seq::empty()).len() == 0,
    decreases b.len(),
{
    reveal_with_fuel(expansion_of, 2);
    let none = Seq::<IncludedPermission>::empty();
    assert(seq![permission].drop_last() =~= none);
    assert(expansion_of(none) + included_scopes_of(permission) =~= included_scopes_of(permission));
    if b.len() == 0 {
        assert(a + b =~= a);
        assert(expansion_of(a) + expansion_of(b) =~= expansion_of(a));
    } else {
        law_sets_expand_permission_by_permission(a, b.drop_last(), permission);
        assert((a + b).drop_last() =~= a + b.drop_last());
        assert((expansion_of(a) + expansion_of(b.drop_last())) + included_scopes_of(b.last())
            =~= expansion_of(a) + (expansion_of(b.drop_last()) + included_scopes_of(b.last())));
    }
}

} // verus!
