//! What a record refers to.
use vstd::prelude::*;

use crate::json::{Json, JsonView};
use crate::text;

verus! {

/// A set of texts.
pub struct TextSet {
    items: Vec<String>,
}

impl View for TextSet {
    type V = Set<Seq<char>>;

    closed spec fn view(&self) -> Set<Seq<char>> {
        text::texts(self.items@).to_set()
    }
}

impl TextSet {
    #[verifier::type_invariant]
    spec fn holds_nothing_twice(self) -> bool {
        text::texts(self.items@).no_duplicates()
    }

    /// The set of nothing.
    pub fn new() -> (set: TextSet)
        ensures
            set@ == Set::<Seq<char>>::empty(),
    {
        let set = TextSet { items: Vec::new() };
        assert(set@ =~= Set::empty());
        set
    }

    /// How many texts the set holds.
    pub fn len(&self) -> (n: usize)
        ensures
            n == self@.len(),
    {
        proof {
            use_type_invariant(self);
            text::texts(self.items@).unique_seq_to_set();
        }
        self.items.len()
    }

    /// Whether the set holds nothing.
    pub fn is_empty(&self) -> (yes: bool)
        ensures
            yes == (self@ == Set::<Seq<char>>::empty()),
    {
        proof {
            if self.items@.len() == 0 {
                assert(self@ =~= Set::empty());
            } else {
                assert(text::texts(self.items@)[0] == self.items@[0]@);
                assert(self@.contains(self.items@[0]@));
            }
        }
        self.items.len() == 0
    }

    /// Whether the set holds a text.
    pub fn contains(&self, item: &str) -> (yes: bool)
        ensures
            yes == self@.contains(item@),
    {
        text::list_contains(&self.items, item)
    }

    /// Puts a text into the set.
    pub fn insert(&mut self, item: &str)
        ensures
            final(self)@ == old(self)@.insert(item@),
    {
        if text::list_contains(&self.items, item) {
            assert(self@.insert(item@) =~= self@);
        } else {
            proof {
                use_type_invariant(&*self);
            }
            let ghost before = text::texts(self.items@);
            let mut items: Vec<String> = Vec::new();
            std::mem::swap(&mut items, &mut self.items);
            items.push(item.to_owned());
            let ghost after = text::texts(items@);
            assert(after =~= before.push(item@));
            assert(after.no_duplicates()) by {
                assert forall|i: int, j: int| 0 <= i < after.len() && 0 <= j < after.len() && i != j implies after[i]
                    != after[j] by {
                    if i == before.len() {
                        assert(before.contains(before[j]));
                    } else if j == before.len() {
                        assert(before.contains(before[i]));
                    }
                }
            }
            self.items = items;
            assert(self@ =~= before.to_set().insert(item@)) by {
                assert forall|t: Seq<char>| after.contains(t) <==> (before.contains(t) || t == item@) by {
                    if before.contains(t) {
                        let k = choose|k: int| 0 <= k < before.len() && before[k] == t;
                        assert(after[k] == t);
                    }
                    if t == item@ {
                        assert(after[before.len() as int] == t);
                    }
                }
            }
        }
    }

    /// The texts, in the order they were put in.
    pub fn into_vec(self) -> (items: Vec<String>)
        ensures
            text::texts(items@).to_set() == self@,
            text::texts(items@).no_duplicates(),
    {
        proof {
            use_type_invariant(&self);
        }
        self.items
    }
}

/// Whether a value holds, at any depth, a text that is this `at://` URI.
pub open spec fn mentions_uri(value: JsonView, uri: Seq<char>) -> bool
    decreases value,
{
    match value {
        JsonView::Text(t) => t == uri && text::has_prefix(t, "at://"@),
        JsonView::List(items) => exists|i: int| 0 <= i < items.len() && mentions_uri(#[trigger] items[i], uri),
        JsonView::Object(members) => exists|i: int|
            0 <= i < members.len() && mentions_uri((#[trigger] members[i]).1, uri),
        _ => false,
    }
}

/// The CID of the blob that an object is a reference to: it must say that it is
/// a blob, since a record link carries a `$link` too.
pub open spec fn blob_link(value: JsonView) -> Option<Seq<char>> {
    if value.get_str("$type"@) == Some("blob"@) {
        match value.get("ref"@) {
            Some(r) => r.get_str("$link"@),
            None => None,
        }
    } else {
        None
    }
}

/// Whether a value holds, at any depth, a reference to the blob with this CID.
pub open spec fn mentions_blob(value: JsonView, cid: Seq<char>) -> bool
    decreases value,
{
    match value {
        JsonView::List(items) => exists|i: int| 0 <= i < items.len() && mentions_blob(#[trigger] items[i], cid),
        JsonView::Object(members) => blob_link(value) == Some(cid) || exists|i: int|
            0 <= i < members.len() && mentions_blob((#[trigger] members[i]).1, cid),
        _ => false,
    }
}

/// The values of an object's members.
spec fn member_values(members: Seq<(Seq<char>, JsonView)>) -> Seq<JsonView> {
    Seq::new(members.len(), |i: int| members[i].1)
}

/// Whether one of the first `n` values holds the URI.
spec fn mentions_uri_within(values: Seq<JsonView>, n: int, x: Seq<char>) -> bool {
    exists|i: int| 0 <= i < n && mentions_uri(#[trigger] values[i], x)
}

proof fn lemma_mentions_uri_within(values: Seq<JsonView>, n: int, x: Seq<char>)
    requires
        0 <= n < values.len(),
    ensures
        mentions_uri_within(values, n + 1, x) <==> mentions_uri_within(values, n, x) || mentions_uri(values[n], x),
{
    if mentions_uri_within(values, n, x) {
        let i = choose|i: int| 0 <= i < n && mentions_uri(#[trigger] values[i], x);
        assert(0 <= i < n + 1 && mentions_uri(values[i], x));
    }
    if mentions_uri(values[n], x) {
        assert(0 <= n < n + 1 && mentions_uri(values[n], x));
    }
}

proof fn lemma_mentions_uri(value: JsonView, x: Seq<char>)
    ensures
        value matches JsonView::List(items) ==> (mentions_uri(value, x) <==> mentions_uri_within(
            items,
            items.len() as int,
            x,
        )),
        value matches JsonView::Object(members) ==> (mentions_uri(value, x) <==> mentions_uri_within(
            member_values(members),
            members.len() as int,
            x,
        )),
{
    reveal_with_fuel(mentions_uri, 2);
    if let JsonView::Object(members) = value {
        let values = member_values(members);
        if mentions_uri(value, x) {
            let i = choose|i: int| 0 <= i < members.len() && mentions_uri((#[trigger] members[i]).1, x);
            assert(values[i] == members[i].1);
        }
        if mentions_uri_within(values, members.len() as int, x) {
            let i = choose|i: int| 0 <= i < members.len() && mentions_uri(#[trigger] values[i], x);
            assert(values[i] == members[i].1);
        }
    }
}

fn collect_at_uris(value: &Json, uris: &mut TextSet)
    ensures
        forall|x: Seq<char>| #[trigger]
            final(uris)@.contains(x) <==> old(uris)@.contains(x) || mentions_uri(value@, x),
    decreases value,
{
    proof {
        crate::json::lemma_json_views(*value);
    }
    match value {
        Json::Text(t) => {
            if text::starts_with(t.as_str(), "at://") {
                uris.insert(t.as_str());
            }
        },
        Json::List(items) => {
            let ghost before = uris@;
            let ghost views = crate::json::json_views(items@);
            for i in 0..items.len()
                invariant
                    *value == Json::List(*items),
                    views == crate::json::json_views(items@),
                    forall|x: Seq<char>| #[trigger]
                        uris@.contains(x) <==> before.contains(x) || mentions_uri_within(views, i as int, x),
            {
                assert(decreases_to!(*value => value->List_0));
                assert(decreases_to!(*items => items[i as int]));
                collect_at_uris(&items[i], uris);
                assert forall|x: Seq<char>| #[trigger]
                    uris@.contains(x) <==> before.contains(x) || mentions_uri_within(views, i + 1, x) by {
                    lemma_mentions_uri_within(views, i as int, x);
                    assert(views[i as int] == items@[i as int]@);
                }
            }
            assert forall|x: Seq<char>| #[trigger] uris@.contains(x) <==> before.contains(x) || mentions_uri(
                value@,
                x,
            ) by {
                lemma_mentions_uri(value@, x);
            }
        },
        Json::Object(members) => {
            let ghost before = uris@;
            let ghost views = member_values(crate::json::member_views(members@));
            for i in 0..members.len()
                invariant
                    *value == Json::Object(*members),
                    views == member_values(crate::json::member_views(members@)),
                    forall|x: Seq<char>| #[trigger]
                        uris@.contains(x) <==> before.contains(x) || mentions_uri_within(views, i as int, x),
            {
                assert(decreases_to!(*value => value->Object_0));
                assert(decreases_to!(*members => members[i as int]));
                assert(decreases_to!(members[i as int] => members[i as int].1));
                collect_at_uris(&members[i].1, uris);
                assert forall|x: Seq<char>| #[trigger]
                    uris@.contains(x) <==> before.contains(x) || mentions_uri_within(views, i + 1, x) by {
                    lemma_mentions_uri_within(views, i as int, x);
                    assert(views[i as int] == members@[i as int].1@);
                }
            }
            assert forall|x: Seq<char>| #[trigger] uris@.contains(x) <==> before.contains(x) || mentions_uri(
                value@,
                x,
            ) by {
                lemma_mentions_uri(value@, x);
            }
        },
        _ => {},
    }
}

/// The `at://` URIs that a value holds as texts, at any depth.
pub fn extract_at_uris(value: &Json) -> (uris: TextSet)
    ensures
        forall|u: Seq<char>| #[trigger] uris@.contains(u) <==> mentions_uri(value@, u),
{
    let mut uris = TextSet::new();
    collect_at_uris(value, &mut uris);
    uris
}

/// Whether one of the first `n` values refers to the blob.
spec fn mentions_blob_within(values: Seq<JsonView>, n: int, x: Seq<char>) -> bool {
    exists|i: int| 0 <= i < n && mentions_blob(#[trigger] values[i], x)
}

proof fn lemma_mentions_blob_within(values: Seq<JsonView>, n: int, x: Seq<char>)
    requires
        0 <= n < values.len(),
    ensures
        mentions_blob_within(values, n + 1, x) <==> mentions_blob_within(values, n, x) || mentions_blob(values[n], x),
{
    if mentions_blob_within(values, n, x) {
        let i = choose|i: int| 0 <= i < n && mentions_blob(#[trigger] values[i], x);
        assert(0 <= i < n + 1 && mentions_blob(values[i], x));
    }
    if mentions_blob(values[n], x) {
        assert(0 <= n < n + 1 && mentions_blob(values[n], x));
    }
}

proof fn lemma_mentions_blob(value: JsonView, x: Seq<char>)
    ensures
        value matches JsonView::List(items) ==> (mentions_blob(value, x) <==> mentions_blob_within(
            items,
            items.len() as int,
            x,
        )),
        value matches JsonView::Object(members) ==> (mentions_blob(value, x) <==> blob_link(value) == Some(x)
            || mentions_blob_within(member_values(members), members.len() as int, x)),
{
    reveal_with_fuel(mentions_blob, 2);
    if let JsonView::Object(members) = value {
        let values = member_values(members);
        if exists|i: int| 0 <= i < members.len() && mentions_blob((#[trigger] members[i]).1, x) {
            let i = choose|i: int| 0 <= i < members.len() && mentions_blob((#[trigger] members[i]).1, x);
            assert(values[i] == members[i].1);
        }
        if mentions_blob_within(values, members.len() as int, x) {
            let i = choose|i: int| 0 <= i < members.len() && mentions_blob(#[trigger] values[i], x);
            assert(values[i] == members[i].1);
        }
    }
}

fn collect_blob_cids(value: &Json, cids: &mut TextSet)
    ensures
        forall|x: Seq<char>| #[trigger]
            final(cids)@.contains(x) <==> old(cids)@.contains(x) || mentions_blob(value@, x),
    decreases value,
{
    proof {
        crate::json::lemma_json_views(*value);
    }
    match value {
        Json::List(items) => {
            let ghost before = cids@;
            let ghost views = crate::json::json_views(items@);
            for i in 0..items.len()
                invariant
                    *value == Json::List(*items),
                    views == crate::json::json_views(items@),
                    forall|x: Seq<char>| #[trigger]
                        cids@.contains(x) <==> before.contains(x) || mentions_blob_within(views, i as int, x),
            {
                assert(decreases_to!(*value => value->List_0));
                assert(decreases_to!(*items => items[i as int]));
                collect_blob_cids(&items[i], cids);
                assert forall|x: Seq<char>| #[trigger]
                    cids@.contains(x) <==> before.contains(x) || mentions_blob_within(views, i + 1, x) by {
                    lemma_mentions_blob_within(views, i as int, x);
                    assert(views[i as int] == items@[i as int]@);
                }
            }
            assert forall|x: Seq<char>| #[trigger] cids@.contains(x) <==> before.contains(x) || mentions_blob(
                value@,
                x,
            ) by {
                lemma_mentions_blob(value@, x);
            }
        },
        Json::Object(members) => {
            let ghost start = cids@;
            if text::same_opt(value.get_str("$type"), Some("blob")) {
                if let Some(r) = value.get("ref") {
                    if let Some(link) = r.get_str("$link") {
                        cids.insert(link);
                    }
                }
            }
            let ghost before = cids@;
            let ghost views = member_values(crate::json::member_views(members@));
            for i in 0..members.len()
                invariant
                    *value == Json::Object(*members),
                    views == member_values(crate::json::member_views(members@)),
                    forall|x: Seq<char>| #[trigger]
                        cids@.contains(x) <==> before.contains(x) || mentions_blob_within(views, i as int, x),
            {
                assert(decreases_to!(*value => value->Object_0));
                assert(decreases_to!(*members => members[i as int]));
                assert(decreases_to!(members[i as int] => members[i as int].1));
                collect_blob_cids(&members[i].1, cids);
                assert forall|x: Seq<char>| #[trigger]
                    cids@.contains(x) <==> before.contains(x) || mentions_blob_within(views, i + 1, x) by {
                    lemma_mentions_blob_within(views, i as int, x);
                    assert(views[i as int] == members@[i as int].1@);
                }
            }
            assert forall|x: Seq<char>| #[trigger] cids@.contains(x) <==> start.contains(x) || mentions_blob(
                value@,
                x,
            ) by {
                lemma_mentions_blob(value@, x);
                assert(before.contains(x) <==> start.contains(x) || blob_link(value@) == Some(x));
            }
        },
        _ => {},
    }
}

/// The CIDs of the blobs that a record refers to, at any depth.
pub fn extract_blob_cids(value: &Json) -> (cids: TextSet)
    ensures
        forall|c: Seq<char>| #[trigger] cids@.contains(c) <==> mentions_blob(value@, c),
{
    let mut cids = TextSet::new();
    collect_blob_cids(value, &mut cids);
    cids
}

/// A record mentions the AT URIs among its texts, however deep they stand: a text
/// mentions itself just if it is one, a list or an object what something in it
/// mentions, and nothing else mentions anything.
pub proof fn law_which_uris_are_mentioned(
    t: Seq<char>,
    items: Seq<JsonView>,
    members: Seq<(Seq<char>, JsonView)>,
    uri: Seq<char>,
    other: JsonView,
)
    ensures
        mentions_uri(JsonView::Text(t), uri) <==> uri == t && text::has_prefix(uri, "at://"@),
        mentions_uri(JsonView::List(items), uri) <==> exists|i: int|
            0 <= i < items.len() && mentions_uri(#[trigger] items[i], uri),
        mentions_uri(JsonView::Object(members), uri) <==> exists|i: int|
            0 <= i < members.len() && mentions_uri((#[trigger] members[i]).1, uri),
        !(other is Text) && !(other is List) && !(other is Object) ==> !mentions_uri(other, uri),
{
    reveal_with_fuel(mentions_uri, 2);
    lemma_mentions_uri(JsonView::List(items), uri);
    lemma_mentions_uri(JsonView::Object(members), uri);
    let values = member_values(members);
    if exists|i: int| 0 <= i < members.len() && mentions_uri((#[trigger] members[i]).1, uri) {
        let i = choose|i: int|
            0 <= i < members.len() && mentions_uri((#[trigger] members[i]).1, uri);
        assert(values[i] == members[i].1);
    }
    if mentions_uri_within(values, members.len() as int, uri) {
        let i = choose|i: int| 0 <= i < members.len() && mentions_uri(#[trigger] values[i], uri);
        assert(members[i].1 == values[i]);
    }
}

/// A record mentions the blobs that objects in it link to, however deep: an object
/// of type `blob` the one that its `ref` links, beside what its members mention. An
/// object of another type links none.
pub proof fn law_which_blobs_are_mentioned(
    items: Seq<JsonView>,
    members: Seq<(Seq<char>, JsonView)>,
    cid: Seq<char>,
    other: JsonView,
)
    ensures
        mentions_blob(JsonView::List(items), cid) <==> exists|i: int|
            0 <= i < items.len() && mentions_blob(#[trigger] items[i], cid),
        mentions_blob(JsonView::Object(members), cid) <==> {
            ||| exists|i: int| 0 <= i < members.len() && mentions_blob((#[trigger] members[i]).1, cid)
            ||| {
                &&& JsonView::Object(members).get_str("$type"@) == Some("blob"@)
                &&& JsonView::Object(members).get("ref"@) matches Some(target)
                &&& target.get_str("$link"@) == Some(cid)
            }
        },
        !(other is List) && !(other is Object) ==> !mentions_blob(other, cid),
{
    reveal_with_fuel(mentions_blob, 2);
    lemma_mentions_blob(JsonView::List(items), cid);
    lemma_mentions_blob(JsonView::Object(members), cid);
    let values = member_values(members);
    if exists|i: int| 0 <= i < members.len() && mentions_blob((#[trigger] members[i]).1, cid) {
        let i = choose|i: int|
            0 <= i < members.len() && mentions_blob((#[trigger] members[i]).1, cid);
        assert(values[i] == members[i].1);
    }
    if mentions_blob_within(values, members.len() as int, cid) {
        let i = choose|i: int| 0 <= i < members.len() && mentions_blob(#[trigger] values[i], cid);
        assert(members[i].1 == values[i]);
    }
}

} // verus!
