//! The keys that clients authenticate with at authorization servers, and what is
//! published of them.
use vstd::prelude::*;

use crate::json::{Json, JsonView};
use crate::text;

verus! {

/// Where a key is in its life.
#[derive(Debug, Clone, Copy, PartialEq, Eq, Structural)]
pub enum KeyStatus {
    /// New sessions are signed with it.
    Current,
    /// Replaced by a newer one; sessions that were established under it still
    /// refresh with it.
    Retiring,
    /// Not used any more.
    Revoked,
}

/// A key of a client.
#[derive(Debug)]
pub struct ClientKey {
    pub kid: String,
    pub status: KeyStatus,
    pub private_jwk: Json,
}

/// What a [`ClientKey`] is.
#[verifier::ext_equal]
pub struct KeyView {
    pub kid: Seq<char>,
    pub status: KeyStatus,
    pub private_jwk: JsonView,
}

impl View for ClientKey {
    type V = KeyView;

    open spec fn view(&self) -> KeyView {
        KeyView { kid: self.kid@, status: self.status, private_jwk: self.private_jwk@ }
    }
}

/// What a list of keys is.
pub open spec fn key_views(keys: Seq<ClientKey>) -> Seq<KeyView> {
    keys.map_values(|k: ClientKey| k@)
}

/// Whether a parameter of a JWK is part of the secret.
pub open spec fn is_private_param(name: Seq<char>) -> bool {
    name == "d"@ || name == "p"@ || name == "q"@ || name == "dp"@ || name == "dq"@ || name == "qi"@
}

fn private_param(name: &str) -> (yes: bool)
    ensures
        yes == is_private_param(name@),
{
    text::same_text(name, "d") || text::same_text(name, "p") || text::same_text(name, "q")
        || text::same_text(name, "dp") || text::same_text(name, "dq") || text::same_text(name, "qi")
}

/// The parameters of a JWK that may be published, but for its name.
pub open spec fn public_params(members: Seq<(Seq<char>, JsonView)>) -> Seq<(Seq<char>, JsonView)>
    decreases members.len(),
{
    if members.len() == 0 {
        Seq::empty()
    } else {
        let head = public_params(members.drop_last());
        if is_private_param(members.last().0) || members.last().0 == "kid"@ {
            head
        } else {
            head.push(members.last())
        }
    }
}

/// What is published of a key: the public parameters of its JWK, under its name.
pub open spec fn public_jwk_of(key: KeyView) -> JsonView {
    let members = match key.private_jwk {
        JsonView::Object(members) => members,
        _ => Seq::empty(),
    };
    JsonView::Object(public_params(members).push(("kid"@, JsonView::Text(key.kid))))
}

proof fn lemma_public_params(members: Seq<(Seq<char>, JsonView)>, name: Seq<char>)
    requires
        is_private_param(name),
    ensures
        forall|i: int|
            0 <= i < public_params(members).len() ==> (#[trigger] public_params(members)[i]).0 != name,
    decreases members.len(),
{
    if members.len() > 0 {
        let head = public_params(members.drop_last());
        lemma_public_params(members.drop_last(), name);
        assert forall|i: int| 0 <= i < public_params(members).len() implies (
        #[trigger] public_params(members)[i]).0 != name by {
            if i < head.len() {
                assert(public_params(members)[i] == head[i]);
            }
        }
    }
}

/// Nothing secret of a key is published.
pub proof fn law_published_keys_hold_no_secret(key: KeyView, name: Seq<char>)
    requires
        is_private_param(name),
    ensures
        public_jwk_of(key).get(name) is None,
{
    let members = match key.private_jwk {
        JsonView::Object(members) => members,
        _ => Seq::empty(),
    };
    lemma_public_params(members, name);
    let published = public_jwk_of(key)->Object_0;
    reveal_strlit("kid");
    reveal_strlit("d");
    reveal_strlit("p");
    reveal_strlit("q");
    reveal_strlit("dp");
    reveal_strlit("dq");
    reveal_strlit("qi");
    assert("kid"@.len() == 3);
    assert(name.len() < 3);
    assert forall|i: int| 0 <= i < published.len() implies (#[trigger] published[i]).0 != name by {
        if i < public_params(members).len() {
            assert(published[i] == public_params(members)[i]);
        }
    }
    crate::json::lemma_lookup_absent(published, name);
}

/// What is published of a key.
pub fn public_jwk(key: &ClientKey) -> (jwk: Json)
    ensures
        jwk@ == public_jwk_of(key@),
{
    let mut params: Vec<(String, Json)> = Vec::new();
    proof {
        crate::json::lemma_json_views(key.private_jwk);
        assert(crate::json::member_views(params@) =~= Seq::empty());
    }
    if let Json::Object(members) = &key.private_jwk {
        let ghost views = crate::json::member_views(members@);
        assert(crate::json::member_views(params@) =~= public_params(views.take(0)));
        for i in 0..members.len()
            invariant
                views == crate::json::member_views(members@),
                crate::json::member_views(params@) == public_params(views.take(i as int)),
        {
            let ghost before = crate::json::member_views(params@);
            assert(views.take(i + 1).drop_last() =~= views.take(i as int));
            assert(views.take(i + 1).last() == (members@[i as int].0@, members@[i as int].1@));
            let name = members[i].0.as_str();
            if !private_param(name) && !text::same_text(name, "kid") {
                params.push((name.to_owned(), members[i].1.copy()));
                assert(crate::json::member_views(params@) =~= before.push(views[i as int]));
            }
        }
        assert(views.take(views.len() as int) =~= views);
    }
    let ghost published = crate::json::member_views(params@);
    params.push(("kid".to_owned(), Json::Text(key.kid.clone())));
    let jwk = Json::Object(params);
    proof {
        crate::json::lemma_json_views(jwk);
        assert(jwk@->Object_0 =~= published.push(("kid"@, JsonView::Text(key.kid@))));
        assert(jwk@->Object_0 =~= public_jwk_of(key@)->Object_0);
    }
    jwk
}

/// The keys that have not been revoked.
pub open spec fn usable(keys: Seq<KeyView>) -> Seq<KeyView>
    decreases keys.len(),
{
    if keys.len() == 0 {
        Seq::empty()
    } else if keys.last().status == KeyStatus::Revoked {
        usable(keys.drop_last())
    } else {
        usable(keys.drop_last()).push(keys.last())
    }
}

/// The key set that keys are published as.
pub open spec fn jwks_of(keys: Seq<KeyView>) -> JsonView {
    JsonView::Object(
        seq![("keys"@, JsonView::List(keys.map_values(|k: KeyView| public_jwk_of(k))))],
    )
}

/// Writes the key set of the keys that have not been revoked.
pub fn render_jwks(keys: &Vec<ClientKey>) -> (jwks: Json)
    ensures
        jwks@ == jwks_of(usable(key_views(keys@))),
{
    let ghost views = key_views(keys@);
    let mut list: Vec<Json> = Vec::new();
    assert(crate::json::json_views(list@) =~= usable(views.take(0)).map_values(
        |k: KeyView| public_jwk_of(k),
    ));
    for i in 0..keys.len()
        invariant
            views == key_views(keys@),
            crate::json::json_views(list@) == usable(views.take(i as int)).map_values(
                |k: KeyView| public_jwk_of(k),
            ),
    {
        let ghost before = crate::json::json_views(list@);
        assert(views.take(i + 1).drop_last() =~= views.take(i as int));
        assert(views.take(i + 1).last() == keys@[i as int]@);
        if keys[i].status != KeyStatus::Revoked {
            let jwk = public_jwk(&keys[i]);
            let ghost view = jwk@;
            list.push(jwk);
            assert(crate::json::json_views(list@) =~= before.push(view));
            assert(usable(views.take(i as int)).push(keys@[i as int]@).map_values(
                |k: KeyView| public_jwk_of(k),
            ) =~= before.push(view));
        }
    }
    assert(views.take(views.len() as int) =~= views);
    let list = Json::List(list);
    proof {
        crate::json::lemma_json_views(list);
    }
    let jwks = Json::Object(vec![("keys".to_owned(), list)]);
    proof {
        crate::json::lemma_json_views(jwks);
        assert(jwks@->Object_0 =~= jwks_of(usable(views))->Object_0);
    }
    jwks
}

/// A key is among the usable ones just if it is a key that was not revoked.
pub proof fn law_revoked_keys_are_not_used(keys: Seq<KeyView>, key: KeyView)
    ensures
        usable(keys).contains(key) <==> keys.contains(key) && key.status != KeyStatus::Revoked,
    decreases keys.len(),
{
    if keys.len() > 0 {
        let head = keys.drop_last();
        let last = keys.last();
        law_revoked_keys_are_not_used(head, key);
        assert(keys =~= head.push(last));
        assert(keys.contains(key) <==> head.contains(key) || key == last) by {
            if keys.contains(key) {
                let k = choose|k: int| 0 <= k < keys.len() && keys[k] == key;
                if k < head.len() {
                    assert(head[k] == key);
                }
            }
            if head.contains(key) {
                let k = choose|k: int| 0 <= k < head.len() && head[k] == key;
                assert(keys[k] == key);
            }
            assert(keys[keys.len() - 1] == last);
        }
        if last.status != KeyStatus::Revoked {
            let rest = usable(head);
            let all = rest.push(last);
            if all.contains(key) {
                let k = choose|k: int| 0 <= k < all.len() && all[k] == key;
                if k < rest.len() {
                    assert(rest[k] == key);
                }
            }
            if rest.contains(key) {
                let k = choose|k: int| 0 <= k < rest.len() && rest[k] == key;
                assert(all[k] == key);
            }
            assert(all[rest.len() as int] == last);
        }
    }
}

/// Whether a key is the one to sign with: that of a name, unless it was revoked,
/// or without a name the current one.
pub open spec fn signs(key: KeyView, kid: Option<Seq<char>>) -> bool {
    match kid {
        Some(name) => key.kid == name && key.status != KeyStatus::Revoked,
        None => key.status == KeyStatus::Current,
    }
}

/// The first key to sign with.
pub open spec fn signing_key_of(keys: Seq<KeyView>, kid: Option<Seq<char>>) -> Option<KeyView>
    decreases keys.len(),
{
    if keys.len() == 0 {
        None
    } else if signs(keys[0], kid) {
        Some(keys[0])
    } else {
        signing_key_of(keys.skip(1), kid)
    }
}

/// Finds the key to sign with.
pub fn find_by_kid<'a>(keys: &'a Vec<ClientKey>, kid: Option<&str>) -> (key: Option<&'a ClientKey>)
    ensures
        match key {
            Some(k) => signing_key_of(key_views(keys@), text::opt_str(kid)) == Some(k@),
            None => signing_key_of(key_views(keys@), text::opt_str(kid)) is None,
        },
{
    let ghost views = key_views(keys@);
    assert(views.skip(0) =~= views);
    for i in 0..keys.len()
        invariant
            views == key_views(keys@),
            signing_key_of(views.skip(i as int), text::opt_str(kid)) == signing_key_of(
                views,
                text::opt_str(kid),
            ),
    {
        assert(views.skip(i as int).skip(1) =~= views.skip(i + 1));
        assert(views.skip(i as int)[0] == keys@[i as int]@);
        let key = &keys[i];
        let chosen = match kid {
            Some(name) => text::same_text(key.kid.as_str(), name) && key.status
                != KeyStatus::Revoked,
            None => key.status == KeyStatus::Current,
        };
        if chosen {
            return Some(key);
        }
    }
    None
}

/// The name of the key that new sessions are signed with.
pub fn current_kid(keys: &Vec<ClientKey>) -> (kid: Option<String>)
    ensures
        text::opt_text(kid) == (match signing_key_of(key_views(keys@), None) {
            Some(key) => Some(key.kid),
            None => None,
        }),
{
    match find_by_kid(keys, None) {
        Some(key) => Some(key.kid.clone()),
        None => None,
    }
}

/// The key that signs is the first that may: the one that is named, unless it was
/// revoked, or where none is named the current one. There is none only where no key
/// may.
pub proof fn law_the_first_key_that_may_signs(keys: Seq<KeyView>, kid: Option<Seq<char>>)
    ensures
        match signing_key_of(keys, kid) {
            Some(key) => {
                &&& kid matches Some(name) ==> key.kid == name && key.status != KeyStatus::Revoked
                &&& kid is None ==> key.status == KeyStatus::Current
                &&& exists|i: int|
                    #![trigger keys[i]]
                    0 <= i < keys.len() && keys[i] == key && forall|j: int|
                        0 <= j < i ==> !signs(#[trigger] keys[j], kid)
            },
            None => forall|i: int|
                #![trigger keys[i]]
                0 <= i < keys.len() ==> match kid {
                    Some(name) => keys[i].kid != name || keys[i].status == KeyStatus::Revoked,
                    None => keys[i].status != KeyStatus::Current,
                },
        },
    decreases keys.len(),
{
    if keys.len() > 0 {
        if signs(keys[0], kid) {
            assert(keys[0] == signing_key_of(keys, kid)->0);
        } else {
            let rest = keys.skip(1);
            law_the_first_key_that_may_signs(rest, kid);
            match signing_key_of(rest, kid) {
                Some(key) => {
                    let i = choose|i: int|
                        #![trigger rest[i]]
                        0 <= i < rest.len() && rest[i] == key && forall|j: int|
                            0 <= j < i ==> !signs(#[trigger] rest[j], kid);
                    assert(keys[i + 1] == key);
                    assert forall|j: int| 0 <= j < i + 1 implies !signs(#[trigger] keys[j], kid) by {
                        if j > 0 {
                            assert(keys[j] == rest[j - 1]);
                        }
                    }
                },
                None => {
                    assert forall|i: int|
                        #![trigger keys[i]]
                        0 <= i < keys.len() implies match kid {
                        Some(name) => keys[i].kid != name || keys[i].status == KeyStatus::Revoked,
                        None => keys[i].status != KeyStatus::Current,
                    } by {
                        if i > 0 {
                            assert(keys[i] == rest[i - 1]);
                        }
                    }
                },
            }
        }
    }
}

proof fn lemma_public_params_keep(members: Seq<(Seq<char>, JsonView)>, name: Seq<char>)
    ensures
        crate::json::lookup(public_params(members), name) == (if is_private_param(name) || name == "kid"@ {
            None
        } else {
            crate::json::lookup(members, name)
        }),
    decreases members.len(),
{
    if members.len() > 0 {
        lemma_public_params_keep(members.drop_last(), name);
        let head = public_params(members.drop_last());
        assert(head.push(members.last()).drop_last() =~= head);
    }
}

/// What is published of a key names it by its kid and says of the key all that is
/// no secret.
pub proof fn law_published_keys_say_the_rest(
    key: KeyView,
    members: Seq<(Seq<char>, JsonView)>,
    name: Seq<char>,
)
    requires
        key.private_jwk == JsonView::Object(members),
        name != "d"@ && name != "p"@ && name != "q"@ && name != "dp"@ && name != "dq"@ && name != "qi"@,
    ensures
        public_jwk_of(key).get_str("kid"@) == Some(key.kid),
        name != "kid"@ ==> public_jwk_of(key).get(name) == key.private_jwk.get(name),
{
    lemma_public_params_keep(members, name);
    lemma_public_params_keep(members, "kid"@);
    let published = public_params(members).push(("kid"@, JsonView::Text(key.kid)));
    assert(published.drop_last() =~= public_params(members));
}

/// Keys that are used stay in order, and are published one by one.
pub proof fn law_keys_are_published_in_order(a: Seq<KeyView>, b: Seq<KeyView>)
    ensures
        usable(a + b) == usable(a) + usable(b),
        jwks_of(a).get("keys"@) matches Some(JsonView::List(published)) && published.len() == a.len()
            && forall|i: int| 0 <= i < a.len() ==> (#[trigger] published[i]) == public_jwk_of(a[i]),
    decreases b.len(),
{
    if b.len() == 0 {
        assert(a + b =~= a);
        assert(usable(a) + usable(b) =~= usable(a));
    } else {
        law_keys_are_published_in_order(a, b.drop_last());
        assert((a + b).drop_last() =~= a + b.drop_last());
        assert((usable(a) + usable(b.drop_last())).push(b.last()) =~= usable(a) + usable(b.drop_last()).push(
            b.last(),
        ));
    }
    let m = jwks_of(a)->Object_0;
    reveal_with_fuel(crate::json::lookup, 2);
    assert(m.drop_last() =~= Seq::empty());
}

/// The members of a JWK that are secret, of a key of any kind, are not published.
pub proof fn law_secret_members_are_not_published(key: KeyView)
    ensures
        public_jwk_of(key).get("d"@) is None,
        public_jwk_of(key).get("p"@) is None,
        public_jwk_of(key).get("q"@) is None,
        public_jwk_of(key).get("dp"@) is None,
        public_jwk_of(key).get("dq"@) is None,
        public_jwk_of(key).get("qi"@) is None,
{
    law_published_keys_hold_no_secret(key, "d"@);
    law_published_keys_hold_no_secret(key, "p"@);
    law_published_keys_hold_no_secret(key, "q"@);
    law_published_keys_hold_no_secret(key, "dp"@);
    law_published_keys_hold_no_secret(key, "dq"@);
    law_published_keys_hold_no_secret(key, "qi"@);
}

} // verus!
