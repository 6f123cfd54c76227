//! JSON values, as the requests, responses and records of the protocol hold
//! them.
use vstd::prelude::*;

use serde_json::Value;

use crate::text::same_text;

verus! {

/// What a JSON value is.
///
/// Numbers come in three kinds: those that fit `u64`, the negative ones that
/// fit `i64`, and the rest, by the text that `serde_json` writes for them.
#[verifier::ext_equal]
pub enum JsonView {
    Null,
    Bool(bool),
    Unsigned(u64),
    Negative(i64),
    Float(Seq<char>),
    Text(Seq<char>),
    List(Seq<JsonView>),
    Object(Seq<(Seq<char>, JsonView)>),
}

/// A JSON value. The members of an object keep the order they were given in.
#[derive(Debug, PartialEq)]
pub enum Json {
    Null,
    Bool(bool),
    Unsigned(u64),
    Negative(i64),
    Float(String),
    Text(String),
    List(Vec<Json>),
    Object(Vec<(String, Json)>),
}

impl View for Json {
    type V = JsonView;

    open spec fn view(&self) -> JsonView
        decreases self,
    {
        match self {
            Json::Null => JsonView::Null,
            Json::Bool(b) => JsonView::Bool(*b),
            Json::Unsigned(n) => JsonView::Unsigned(*n),
            Json::Negative(n) => JsonView::Negative(*n),
            Json::Float(t) => JsonView::Float(t@),
            Json::Text(t) => JsonView::Text(t@),
            Json::List(items) => JsonView::List(
                Seq::new(
                    items@.len(),
                    |i: int|
                        if 0 <= i < items@.len() {
                            items@[i].view()
                        } else {
                            JsonView::Null
                        },
                ),
            ),
            Json::Object(members) => JsonView::Object(
                Seq::new(
                    members@.len(),
                    |i: int|
                        if 0 <= i < members@.len() {
                            (members@[i].0@, members@[i].1.view())
                        } else {
                            (Seq::empty(), JsonView::Null)
                        },
                ),
            ),
        }
    }
}

/// The values of a list of values.
pub open spec fn json_views(items: Seq<Json>) -> Seq<JsonView> {
    Seq::new(items.len(), |i: int| items[i]@)
}

/// The members of a list of members.
pub open spec fn member_views(members: Seq<(String, Json)>) -> Seq<(Seq<char>, JsonView)> {
    Seq::new(members.len(), |i: int| (members[i].0@, members[i].1@))
}

/// What a list of values, and an object of members, are.
pub broadcast proof fn lemma_json_views(value: Json)
    ensures
        #![trigger value.view()]
        value matches Json::List(items) ==> value@ == JsonView::List(json_views(items@)),
        value matches Json::Object(members) ==> value@ == JsonView::Object(member_views(members@)),
{
    reveal_with_fuel(<Json as View>::view, 2);
    match value {
        Json::List(items) => {
            assert(value@->List_0 =~= json_views(items@));
        },
        Json::Object(members) => {
            assert(value@->Object_0 =~= member_views(members@));
        },
        _ => {},
    }
}

/// The value of the first member with this key.
pub open spec fn lookup(members: Seq<(Seq<char>, JsonView)>, key: Seq<char>) -> Option<JsonView>
    decreases members.len(),
{
    if members.len() == 0 {
        None
    } else {
        match lookup(members.drop_last(), key) {
            Some(value) => Some(value),
            None => if members.last().0 == key {
                Some(members.last().1)
            } else {
                None
            },
        }
    }
}

impl JsonView {
    /// The value of an object's member, if this is an object that has it.
    pub open spec fn get(self, key: Seq<char>) -> Option<JsonView> {
        match self {
            JsonView::Object(members) => lookup(members, key),
            _ => None,
        }
    }

    /// The text, if this is one.
    pub open spec fn as_str(self) -> Option<Seq<char>> {
        match self {
            JsonView::Text(t) => Some(t),
            _ => None,
        }
    }

    /// The number, if this is one that fits `u64`.
    pub open spec fn as_u64(self) -> Option<u64> {
        match self {
            JsonView::Unsigned(n) => Some(n),
            _ => None,
        }
    }

    /// The truth value, if this is one.
    pub open spec fn as_bool(self) -> Option<bool> {
        match self {
            JsonView::Bool(b) => Some(b),
            _ => None,
        }
    }

    /// The items, if this is a list.
    pub open spec fn as_list(self) -> Option<Seq<JsonView>> {
        match self {
            JsonView::List(items) => Some(items),
            _ => None,
        }
    }

    /// The text of an object's member, if it has one that is a text.
    pub open spec fn get_str(self, key: Seq<char>) -> Option<Seq<char>> {
        match self.get(key) {
            Some(value) => value.as_str(),
            None => None,
        }
    }

    /// The number of an object's member, if it has one that fits `u64`.
    pub open spec fn get_u64(self, key: Seq<char>) -> Option<u64> {
        match self.get(key) {
            Some(value) => value.as_u64(),
            None => None,
        }
    }
}

/// Whether an object's members all have different keys.
pub open spec fn distinct_keys(members: Seq<(Seq<char>, JsonView)>) -> bool {
    forall|i: int, j: int| 0 <= i < j < members.len() ==> (#[trigger] members[i]).0 != (#[trigger] members[j]).0
}

/// Whether a value is a text, a whole number, a truth value or null.
pub open spec fn is_plain(value: JsonView) -> bool {
    match value {
        JsonView::List(_) => false,
        JsonView::Object(_) => false,
        JsonView::Float(_) => false,
        JsonView::Negative(n) => n < 0,
        _ => true,
    }
}

/// Whether an object begins with a key that is not empty and not one of those
/// with a dollar sign, by which `serde_json` marks values of its own.
pub open spec fn begins_plainly(members: Seq<(Seq<char>, JsonView)>) -> bool {
    members.len() > 0 ==> members[0].0.len() > 0 && members[0].0[0] != '$'
}

/// Whether a value is a list of plain values, or an object of them with no key
/// twice that begins plainly.
pub open spec fn is_flat(value: JsonView) -> bool {
    match value {
        JsonView::List(items) => forall|i: int| 0 <= i < items.len() ==> is_plain(#[trigger] items[i]),
        JsonView::Object(members) => distinct_keys(members) && begins_plainly(members) && forall|
            i: int,
        |
            0 <= i < members.len() ==> is_plain((#[trigger] members[i]).1),
        _ => false,
    }
}

/// The `serde_json` representation of a JSON value.
#[verifier::external_type_specification]
#[verifier::external_body]
pub struct ExValue(serde_json::Value);

/// What a `serde_json::Value` holds.
pub uninterp spec fn value_tree(value: serde_json::Value) -> JsonView;

/// What `serde_json::from_slice` makes of bytes, or the text of its error.
pub uninterp spec fn json_parsed(bytes: Seq<u8>) -> Result<JsonView, Seq<char>>;

/// What `serde_json` holds for a value: a repeated key keeps its last value,
/// and a number that is no integer the text that `serde_json` writes for it.
pub uninterp spec fn json_normal(value: JsonView) -> JsonView;

/// The bytes that `serde_json::to_vec` writes for a value.
pub uninterp spec fn json_rendered(value: JsonView) -> Seq<u8>;

/// The bits of the floating-point number that `serde_json` reads in a text, if
/// it reads one.
pub uninterp spec fn float_bits_of(text: Seq<char>) -> Option<u64>;

/// A value that was read.
pub open spec fn json_ok(value: JsonView) -> Result<JsonView, Seq<char>> {
    Ok(value)
}

/// The text of an error in place of a value.
pub open spec fn json_err(text: Seq<char>) -> Result<JsonView, Seq<char>> {
    Err(text)
}

/// Reads JSON, with `serde_json::from_slice`.
///
/// Trusted: the value, or the text of the error, is a function of the bytes.
#[verifier::external_body]
fn value_from_slice(bytes: &[u8]) -> (value: Result<serde_json::Value, String>)
    ensures
        match value {
            Ok(v) => json_parsed(bytes@) == json_ok(value_tree(v)),
            Err(e) => json_parsed(bytes@) == json_err(e@),
        },
{
    serde_json::from_slice::<serde_json::Value>(bytes).map_err(|e| e.to_string())
}

/// Copies what a `serde_json::Value` holds, variant by variant.
///
/// Trusted: the copy is what the value holds.
#[verifier::external_body]
fn json_of_value(value: &serde_json::Value) -> (json: Json)
    ensures
        json@ == value_tree(*value),
{
    match value {
        Value::Null => Json::Null,
        Value::Bool(b) => Json::Bool(*b),
        Value::Number(n) => match (n.as_u64(), n.as_i64()) {
            (Some(u), _) => Json::Unsigned(u),
            (None, Some(i)) => Json::Negative(i),
            (None, None) => Json::Float(n.to_string()),
        },
        Value::String(s) => Json::Text(s.clone()),
        Value::Array(items) => Json::List(items.iter().map(json_of_value).collect()),
        Value::Object(map) => Json::Object(map.iter().map(|(k, v)| (k.clone(), json_of_value(v))).collect()),
    }
}

/// Makes a `serde_json::Value`, variant by variant.
///
/// Trusted: what the value holds is a function of what it was made of, and for
/// a list of plain values, or an object of them without repeated keys, it is the
/// same.
#[verifier::external_body]
fn value_of_json(json: &Json) -> (value: serde_json::Value)
    ensures
        value_tree(value) == json_normal(json@),
        is_flat(json@) ==> value_tree(value) == json@,
{
    match json {
        Json::Null => Value::Null,
        Json::Bool(b) => Value::Bool(*b),
        Json::Unsigned(n) => Value::from(*n),
        Json::Negative(n) => Value::from(*n),
        Json::Float(t) => t.parse().map(Value::Number).unwrap_or(Value::Null),
        Json::Text(t) => Value::String(t.clone()),
        Json::List(items) => Value::Array(items.iter().map(value_of_json).collect()),
        Json::Object(members) => members.iter().map(|(k, v)| (k.clone(), value_of_json(v))).collect(),
    }
}

/// Writes JSON, with `serde_json::to_vec`.
///
/// Trusted: the bytes are a function of what the value holds, and reading the
/// bytes of a list or an object of plain values gives that value back. An object
/// whose first key begins with a dollar sign is left out: `serde_json` writes it
/// as any other, but reads some such keys as marks of its own.
#[verifier::external_body]
fn value_to_vec(value: &serde_json::Value) -> (bytes: Vec<u8>)
    ensures
        bytes@ == json_rendered(value_tree(*value)),
        is_flat(value_tree(*value)) ==> json_parsed(bytes@) == json_ok(
            value_tree(*value),
        ),
{
    serde_json::to_vec(value).unwrap_or_default()
}

/// Writes JSON as text, with the `Display` of `serde_json::Value`.
///
/// Trusted: the text's bytes are those that `serde_json::to_vec` writes.
#[verifier::external_body]
fn value_to_text(value: &serde_json::Value) -> (text: String)
    ensures
        vstd::utf8::encode_utf8(text@) == json_rendered(value_tree(*value)),
{
    value.to_string()
}

/// The bits of the number in a text, read by `serde_json::Number`.
///
/// Trusted: they are a function of the text.
#[verifier::external_body]
pub(crate) fn float_bits(text: &str) -> (bits: Option<u64>)
    ensures
        bits == float_bits_of(text@),
{
    text.parse::<serde_json::Number>().ok().and_then(|n| n.as_f64()).map(|x| x.to_bits())
}

impl Json {
    /// Reads JSON. On bytes that are not JSON, the text of the error.
    pub fn from_slice(bytes: &[u8]) -> (json: Result<Json, String>)
        ensures
            match json {
                Ok(j) => json_parsed(bytes@) == json_ok(j@),
                Err(e) => json_parsed(bytes@) == json_err(e@),
            },
    {
        match value_from_slice(bytes) {
            Ok(value) => Ok(json_of_value(&value)),
            Err(e) => Err(e),
        }
    }

    /// Reads JSON out of a text.
    pub fn parse(text: &str) -> (json: Result<Json, String>)
        ensures
            match json {
                Ok(j) => json_parsed(vstd::utf8::encode_utf8(text@)) == json_ok(j@),
                Err(e) => json_parsed(vstd::utf8::encode_utf8(text@)) == json_err(e@),
            },
    {
        Json::from_slice(text.as_bytes())
    }

    /// Writes JSON.
    pub fn to_vec(&self) -> (bytes: Vec<u8>)
        ensures
            bytes@ == json_rendered(json_normal(self@)),
            is_flat(self@) ==> bytes@ == json_rendered(self@) && json_parsed(bytes@) == json_ok(self@),
    {
        let value = value_of_json(self);
        value_to_vec(&value)
    }

    /// Writes JSON as text.
    pub fn to_text(&self) -> (text: String)
        ensures
            vstd::utf8::encode_utf8(text@) == json_rendered(json_normal(self@)),
            is_flat(self@) ==> vstd::utf8::encode_utf8(text@) == json_rendered(self@),
    {
        let value = value_of_json(self);
        value_to_text(&value)
    }

    /// Copies a value.
    pub fn copy(&self) -> (copy: Json)
        ensures
            copy@ == self@,
        decreases self,
    {
        match self {
            Json::Null => Json::Null,
            Json::Bool(b) => Json::Bool(*b),
            Json::Unsigned(n) => Json::Unsigned(*n),
            Json::Negative(n) => Json::Negative(*n),
            Json::Float(t) => Json::Float(t.clone()),
            Json::Text(t) => Json::Text(t.clone()),
            Json::List(items) => {
                let mut copies: Vec<Json> = Vec::new();
                for i in 0..items.len()
                    invariant
                        copies@.len() == i,
                        *self == Json::List(*items),
                        forall|j: int| 0 <= j < i ==> (#[trigger] copies@[j])@ == items@[j]@,
                    decreases items@.len() - i,
                {
                    assert(decreases_to!(*self => self->List_0));
                    assert(decreases_to!(*items => items[i as int]));
                    copies.push(items[i].copy());
                }
                let copy = Json::List(copies);
                proof {
                    lemma_json_views(copy);
                    lemma_json_views(*self);
                    assert(json_views(copies@) =~= json_views(items@));
                }
                copy
            },
            Json::Object(members) => {
                let mut copies: Vec<(String, Json)> = Vec::new();
                for i in 0..members.len()
                    invariant
                        copies@.len() == i,
                        *self == Json::Object(*members),
                        forall|j: int|
                            0 <= j < i ==> (#[trigger] copies@[j]).0@ == members@[j].0@ && copies@[j].1@
                                == members@[j].1@,
                {
                    assert(decreases_to!(*self => self->Object_0));
                    assert(decreases_to!(*members => members[i as int]));
                    assert(decreases_to!(members[i as int] => members[i as int].1));
                    copies.push((members[i].0.clone(), members[i].1.copy()));
                }
                let copy = Json::Object(copies);
                proof {
                    lemma_json_views(copy);
                    lemma_json_views(*self);
                    assert(member_views(copies@) =~= member_views(members@));
                }
                copy
            },
        }
    }

    /// The value of an object's member, if this is an object that has it.
    pub fn get(&self, key: &str) -> (value: Option<&Json>)
        ensures
            match value {
                Some(v) => self@.get(key@) == Some(v@),
                None => self@.get(key@) is None,
            },
    {
        proof {
            lemma_json_views(*self);
        }
        match self {
            Json::Object(members) => find_member(members, key),
            _ => None,
        }
    }

    /// The text, if this is one.
    pub fn as_str(&self) -> (text: Option<&str>)
        ensures
            crate::text::opt_str(text) == self@.as_str(),
    {
        match self {
            Json::Text(t) => Some(t.as_str()),
            _ => None,
        }
    }

    /// The number, if this is one that fits `u64`.
    pub fn as_u64(&self) -> (number: Option<u64>)
        ensures
            number == self@.as_u64(),
    {
        match self {
            Json::Unsigned(n) => Some(*n),
            _ => None,
        }
    }

    /// The truth value, if this is one.
    pub fn as_bool(&self) -> (truth: Option<bool>)
        ensures
            truth == self@.as_bool(),
    {
        match self {
            Json::Bool(b) => Some(*b),
            _ => None,
        }
    }

    /// The items, if this is a list.
    pub fn as_list(&self) -> (items: Option<&Vec<Json>>)
        ensures
            match items {
                Some(list) => self@.as_list() == Some(json_views(list@)),
                None => self@.as_list() is None,
            },
    {
        proof {
            lemma_json_views(*self);
        }
        match self {
            Json::List(items) => Some(items),
            _ => None,
        }
    }

    /// The text of an object's member, if it has one that is a text.
    pub fn get_str(&self, key: &str) -> (text: Option<&str>)
        ensures
            crate::text::opt_str(text) == self@.get_str(key@),
    {
        match self.get(key) {
            Some(value) => value.as_str(),
            None => None,
        }
    }

    /// The number of an object's member, if it has one that fits `u64`.
    pub fn get_u64(&self, key: &str) -> (number: Option<u64>)
        ensures
            number == self@.get_u64(key@),
    {
        match self.get(key) {
            Some(value) => value.as_u64(),
            None => None,
        }
    }
}

/// With no key twice, each member is the one found under its key.
pub proof fn lemma_lookup_at(members: Seq<(Seq<char>, JsonView)>, i: int)
    requires
        distinct_keys(members),
        0 <= i < members.len(),
    ensures
        lookup(members, members[i].0) == Some(members[i].1),
    decreases members.len(),
{
    let head = members.drop_last();
    if i < members.len() - 1 {
        assert(head[i] == members[i]);
        lemma_lookup_at(head, i);
    } else {
        lemma_lookup_absent(head, members[i].0);
    }
}

/// A key that no member has is not found.
pub proof fn lemma_lookup_absent(members: Seq<(Seq<char>, JsonView)>, key: Seq<char>)
    requires
        forall|j: int| 0 <= j < members.len() ==> (#[trigger] members[j]).0 != key,
    ensures
        lookup(members, key) is None,
    decreases members.len(),
{
    if members.len() > 0 {
        assert(forall|j: int| 0 <= j < members.len() - 1 ==> members.drop_last()[j] == members[j]);
        lemma_lookup_absent(members.drop_last(), key);
    }
}

/// The value of the first member with this key.
pub fn find_member<'a>(members: &'a Vec<(String, Json)>, key: &str) -> (value: Option<&'a Json>)
    ensures
        match value {
            Some(v) => lookup(member_views(members@), key@) == Some(v@),
            None => lookup(member_views(members@), key@) is None,
        },
{
    let ghost all = member_views(members@);
    for i in 0..members.len()
        invariant
            all == member_views(members@),
            lookup(all.take(i as int), key@) is None,
    {
        assert(all.take(i + 1).drop_last() == all.take(i as int));
        if same_text(members[i].0.as_str(), key) {
            proof {
                lemma_lookup_prefix(all, i + 1, key@);
            }
            return Some(&members[i].1);
        }
    }
    assert(all.take(all.len() as int) == all);
    None
}

/// A member found in a part of the members is the one found in all of them.
pub proof fn lemma_lookup_prefix(members: Seq<(Seq<char>, JsonView)>, n: int, key: Seq<char>)
    requires
        0 <= n <= members.len(),
        lookup(members.take(n), key) is Some,
    ensures
        lookup(members, key) == lookup(members.take(n), key),
    decreases members.len() - n,
{
    if n < members.len() {
        assert(members.take(n + 1).drop_last() == members.take(n));
        lemma_lookup_prefix(members, n + 1, key);
    } else {
        assert(members.take(n) == members);
    }
}

/// Members with a value under a key: in place of the first that has the key, or
/// behind them all.
pub open spec fn members_with(
    members: Seq<(Seq<char>, JsonView)>,
    key: Seq<char>,
    value: JsonView,
) -> Seq<(Seq<char>, JsonView)>
    decreases members.len(),
{
    if members.len() == 0 {
        seq![(key, value)]
    } else if members[0].0 == key {
        seq![(key, value)] + members.skip(1)
    } else {
        seq![members[0]] + members_with(members.skip(1), key, value)
    }
}

/// An object with a value under a key.
pub open spec fn with_member(object: JsonView, key: Seq<char>, value: JsonView) -> JsonView {
    match object {
        JsonView::Object(members) => JsonView::Object(members_with(members, key, value)),
        _ => object,
    }
}

proof fn lemma_members_with_at(
    members: Seq<(Seq<char>, JsonView)>,
    key: Seq<char>,
    value: JsonView,
    i: int,
)
    requires
        0 <= i <= members.len(),
        forall|j: int| 0 <= j < i ==> (#[trigger] members[j]).0 != key,
        i < members.len() ==> members[i].0 == key,
    ensures
        i < members.len() ==> members_with(members, key, value) == members.update(i, (key, value)),
        i == members.len() ==> members_with(members, key, value) == members.push((key, value)),
    decreases members.len(),
{
    if i == 0 {
        if members.len() > 0 {
            assert(seq![(key, value)] + members.skip(1) =~= members.update(0, (key, value)));
        } else {
            assert(seq![(key, value)] =~= members.push((key, value)));
        }
    } else {
        let rest = members.skip(1);
        assert forall|j: int| 0 <= j < i - 1 implies (#[trigger] rest[j]).0 != key by {
            assert(rest[j] == members[j + 1]);
        }
        lemma_members_with_at(rest, key, value, i - 1);
        if i < members.len() {
            assert(seq![members[0]] + rest.update(i - 1, (key, value)) =~= members.update(
                i,
                (key, value),
            ));
        } else {
            assert(seq![members[0]] + rest.push((key, value)) =~= members.push((key, value)));
        }
    }
}

/// Puts a value under a key of an object.
pub fn set_member(object: Json, key: &str, value: Json) -> (result: Json)
    requires
        object is Object,
    ensures
        result is Object,
        result@ == with_member(object@, key@, value@),
{
    proof {
        lemma_json_views(object);
    }
    let mut members = match object {
        Json::Object(members) => members,
        _ => Vec::new(),
    };
    let ghost views = member_views(members@);
    let n = members.len();
    let mut at: usize = 0;
    while at < n && !same_text(members[at].0.as_str(), key)
        invariant
            at <= n,
            n == members@.len(),
            views == member_views(members@),
            forall|j: int| 0 <= j < at ==> (#[trigger] views[j]).0 != key@,
        decreases n - at,
    {
        assert(views[at as int].0 == members@[at as int].0@);
        at = at + 1;
    }
    proof {
        lemma_members_with_at(views, key@, value@, at as int);
    }
    let entry = (key.to_owned(), value);
    if at < n {
        members.set(at, entry);
    } else {
        members.push(entry);
    }
    let result = Json::Object(members);
    proof {
        lemma_json_views(result);
        assert(member_views(members@) =~= members_with(views, key@, value@));
    }
    result
}

proof fn lemma_lookup_front(
    first: (Seq<char>, JsonView),
    rest: Seq<(Seq<char>, JsonView)>,
    key: Seq<char>,
)
    ensures
        lookup(seq![first] + rest, key) == (if first.0 == key {
            Some(first.1)
        } else {
            lookup(rest, key)
        }),
    decreases rest.len(),
{
    let all = seq![first] + rest;
    if rest.len() == 0 {
        assert(all.drop_last() =~= Seq::empty());
        assert(lookup(all.drop_last(), key) is None);
    } else {
        assert(all.drop_last() =~= seq![first] + rest.drop_last());
        assert(all.last() == rest.last());
        lemma_lookup_front(first, rest.drop_last(), key);
    }
}

/// What is found under a key is the value of the first member that has it, and
/// nothing is found just if no member has it.
pub proof fn law_lookup_finds_the_first(members: Seq<(Seq<char>, JsonView)>, key: Seq<char>)
    ensures
        lookup(members, key) is None <==> forall|i: int|
            0 <= i < members.len() ==> (#[trigger] members[i]).0 != key,
        forall|i: int|
            0 <= i < members.len() && (#[trigger] members[i]).0 == key && (forall|j: int|
                0 <= j < i ==> (#[trigger] members[j]).0 != key) ==> lookup(members, key) == Some(
                members[i].1,
            ),
    decreases members.len(),
{
    if members.len() > 0 {
        let head = members.drop_last();
        law_lookup_finds_the_first(head, key);
        assert forall|i: int| 0 <= i < head.len() implies head[i] == members[i] by {}
        if lookup(members, key) is None {
            assert forall|i: int| 0 <= i < members.len() implies (#[trigger] members[i]).0 != key by {
                if i < head.len() {
                    assert(head[i].0 != key);
                }
            }
        }
        if forall|i: int| 0 <= i < members.len() ==> (#[trigger] members[i]).0 != key {
            assert forall|i: int| 0 <= i < head.len() implies (#[trigger] head[i]).0 != key by {
                assert(members[i].0 != key);
            }
        }
        assert forall|i: int|
            0 <= i < members.len() && (#[trigger] members[i]).0 == key && (forall|j: int|
                0 <= j < i ==> (#[trigger] members[j]).0 != key) implies lookup(members, key) == Some(
            members[i].1,
        ) by {
            if i < head.len() {
                assert(head[i].0 == key);
                assert forall|j: int| 0 <= j < i implies (#[trigger] head[j]).0 != key by {
                    assert(members[j].0 != key);
                }
            } else {
                assert forall|j: int| 0 <= j < head.len() implies (#[trigger] head[j]).0 != key by {
                    assert(members[j].0 != key);
                }
            }
        }
    }
}

/// Putting a value under a key of an object puts it there, and leaves what is
/// found under every other key.
pub proof fn law_set_member_sets_just_it(
    members: Seq<(Seq<char>, JsonView)>,
    key: Seq<char>,
    value: JsonView,
    other: Seq<char>,
)
    ensures
        with_member(JsonView::Object(members), key, value).get(key) == Some(value),
        other != key ==> with_member(JsonView::Object(members), key, value).get(other)
            == JsonView::Object(members).get(other),
    decreases members.len(),
{
    let none = Seq::<(Seq<char>, JsonView)>::empty();
    if members.len() == 0 {
        assert(seq![(key, value)] =~= seq![(key, value)] + none);
        lemma_lookup_front((key, value), none, key);
        lemma_lookup_front((key, value), none, other);
    } else {
        let rest = members.skip(1);
        assert(members =~= seq![members[0]] + rest);
        lemma_lookup_front(members[0], rest, other);
        if members[0].0 == key {
            lemma_lookup_front((key, value), rest, key);
            lemma_lookup_front((key, value), rest, other);
        } else {
            law_set_member_sets_just_it(rest, key, value, other);
            lemma_lookup_front(members[0], members_with(rest, key, value), key);
            lemma_lookup_front(members[0], members_with(rest, key, value), other);
        }
    }
}

} // verus!
