//! What this service says of itself: which methods it serves.
//!
//! `community.lexicon.service.describe` answers which XRPC methods a service
//! implements. Without it, the only way to ask is to call a method and read the
//! failure, where a server that lacks an optional feature and a broken one look
//! alike.
use vstd::prelude::*;

use crate::json::{Json, JsonView};
use crate::spaces::routes;
use crate::spaces::routes::Endpoint;
use crate::spaces::simplespace;
use crate::text;

verus! {

/// The method that describes a service.
pub const DESCRIBE_NSID: &'static str = "community.lexicon.service.describe";

/// The `$type` that each advertised method carries.
pub const NSID_ENTRY_TYPE: &'static str = "community.lexicon.service.describe#nsid";

/// The route of the descriptor.
pub fn describe_routes() -> (table: Vec<(String, Endpoint)>)
    ensures
        routes::method_views(table@) == routes::routes_of(
            seq![(DESCRIBE_NSID@, Endpoint::Describe)],
        ),
{
    let table = vec![(DESCRIBE_NSID.to_owned(), Endpoint::Describe)];
    assert(routes::method_views(table@) =~= seq![(DESCRIBE_NSID@, Endpoint::Describe)]);
    routes::xrpc_routes(&table)
}

/// The methods that are advertised: all that are served, but for the aliases.
pub open spec fn served_methods() -> Seq<(Seq<char>, Endpoint)> {
    routes::protocol_methods() + simplespace::management_methods() + seq![
        (DESCRIBE_NSID@, Endpoint::Describe),
    ]
}

/// Whether a method is advertised.
pub open spec fn is_advertised(nsid: Seq<char>) -> bool {
    exists|i: int| 0 <= i < served_methods().len() && (#[trigger] served_methods()[i]).0 == nsid
}

/// All the routes of this build.
pub open spec fn all_routes() -> Seq<(Seq<char>, Endpoint)> {
    routes::routes_of(routes::protocol_methods() + routes::legacy_methods()) + routes::routes_of(
        simplespace::management_methods() + simplespace::legacy_management_methods(),
    ) + routes::routes_of(seq![(DESCRIBE_NSID@, Endpoint::Describe)])
}

fn place_names(list: &mut Vec<String>, table: &Vec<(String, Endpoint)>)
    requires
        text::texts_ascend(text::texts(old(list)@)),
    ensures
        text::texts_ascend(text::texts(final(list)@)),
        forall|t: Seq<char>| #[trigger]
            text::texts(final(list)@).contains(t) <==> (text::texts(old(list)@).contains(t)
                || names(routes::method_views(table@), t)),
{
    let ghost before = text::texts(list@);
    let ghost views = routes::method_views(table@);
    for i in 0..table.len()
        invariant
            views == routes::method_views(table@),
            text::texts_ascend(text::texts(list@)),
            forall|t: Seq<char>| #[trigger]
                text::texts(list@).contains(t) <==> (before.contains(t) || names(
                    views.take(i as int),
                    t,
                )),
    {
        let ghost placed = text::texts(list@);
        text::place(list, table[i].0.as_str());
        proof {
            assert forall|t: Seq<char>| #[trigger]
                text::texts(list@).contains(t) <==> (before.contains(t) || names(views.take(i + 1), t)) by {
                assert(placed.contains(t) || !placed.contains(t));
                lemma_names_step(views, i as int, t);
            }
        }
    }
    assert(views.take(views.len() as int) =~= views);
}

/// Whether a method of this name is in a table.
pub open spec fn names(table: Seq<(Seq<char>, Endpoint)>, nsid: Seq<char>) -> bool {
    exists|i: int| 0 <= i < table.len() && (#[trigger] table[i]).0 == nsid
}

proof fn lemma_names_step(table: Seq<(Seq<char>, Endpoint)>, i: int, nsid: Seq<char>)
    requires
        0 <= i < table.len(),
    ensures
        names(table.take(i + 1), nsid) <==> names(table.take(i), nsid) || table[i].0 == nsid,
{
    let longer = table.take(i + 1);
    let shorter = table.take(i);
    if names(longer, nsid) {
        let k = choose|k: int| 0 <= k < longer.len() && (#[trigger] longer[k]).0 == nsid;
        if k < i {
            assert(shorter[k] == longer[k]);
        }
    }
    if names(shorter, nsid) {
        let k = choose|k: int| 0 <= k < shorter.len() && (#[trigger] shorter[k]).0 == nsid;
        assert(longer[k] == shorter[k]);
    }
    assert(longer[i] == table[i]);
}

proof fn lemma_names_append(
    a: Seq<(Seq<char>, Endpoint)>,
    b: Seq<(Seq<char>, Endpoint)>,
    nsid: Seq<char>,
)
    ensures
        names(a + b, nsid) <==> names(a, nsid) || names(b, nsid),
{
    let both = a + b;
    if names(both, nsid) {
        let k = choose|k: int| 0 <= k < both.len() && (#[trigger] both[k]).0 == nsid;
        if k < a.len() {
            assert(a[k] == both[k]);
        } else {
            assert(b[k - a.len()] == both[k]);
        }
    }
    if names(a, nsid) {
        let k = choose|k: int| 0 <= k < a.len() && (#[trigger] a[k]).0 == nsid;
        assert(both[k] == a[k]);
    }
    if names(b, nsid) {
        let k = choose|k: int| 0 <= k < b.len() && (#[trigger] b[k]).0 == nsid;
        assert(both[k + a.len()] == b[k]);
    }
}

/// The methods that this build serves, in order and each once. With spaces
/// switched off nothing is advertised, so that a client can tell a build without
/// spaces from one with them.
///
/// Made from the tables that the routes are made from. Claiming too much is the
/// dangerous direction: a client that was told of a method we do not serve will
/// fail on the call it was told would work.
pub fn advertised_methods(spaces_enabled: bool) -> (methods: Vec<String>)
    ensures
        text::texts_ascend(text::texts(methods@)),
        forall|nsid: Seq<char>| #[trigger]
            text::texts(methods@).contains(nsid) <==> (spaces_enabled && is_advertised(nsid)),
{
    let mut methods: Vec<String> = Vec::new();
    if !spaces_enabled {
        return methods;
    }
    let protocol = routes::protocol_method_table();
    place_names(&mut methods, &protocol);
    let ghost first = text::texts(methods@);
    let management = simplespace::management_method_table();
    place_names(&mut methods, &management);
    let ghost second = text::texts(methods@);
    text::place(&mut methods, DESCRIBE_NSID);
    proof {
        let all = served_methods();
        let last = seq![(DESCRIBE_NSID@, Endpoint::Describe)];
        assert forall|nsid: Seq<char>| #[trigger]
            text::texts(methods@).contains(nsid) <==> is_advertised(nsid) by {
            assert(first.contains(nsid) || !first.contains(nsid));
            assert(second.contains(nsid) || !second.contains(nsid));
            lemma_names_append(
                routes::protocol_methods() + simplespace::management_methods(),
                last,
                nsid,
            );
            lemma_names_append(
                routes::protocol_methods(),
                simplespace::management_methods(),
                nsid,
            );
            assert(names(last, nsid) <==> nsid == DESCRIBE_NSID@) by {
                assert(last[0].0 == DESCRIBE_NSID@);
            }
            assert(is_advertised(nsid) == names(all, nsid));
        }
    }
    methods
}

/// Every method that is advertised is routed, to the endpoint that serves it.
pub proof fn law_advertised_methods_are_routed(i: int)
    requires
        0 <= i < served_methods().len(),
    ensures
        all_routes().contains(("/xrpc/"@ + served_methods()[i].0, served_methods()[i].1)),
{
    let method = served_methods()[i];
    let protocol = routes::protocol_methods();
    let management = simplespace::management_methods();
    let a = routes::routes_of(protocol + routes::legacy_methods());
    let b = routes::routes_of(management + simplespace::legacy_management_methods());
    let c = routes::routes_of(seq![(DESCRIBE_NSID@, Endpoint::Describe)]);
    let route = ("/xrpc/"@ + method.0, method.1);
    if i < protocol.len() {
        assert(a[i] == route);
        assert(all_routes()[i] == route);
    } else if i < protocol.len() + management.len() {
        let k = i - protocol.len();
        assert(b[k] == route);
        assert(all_routes()[a.len() + k] == route);
    } else {
        assert(c[0] == route);
        assert(all_routes()[a.len() + b.len() as int] == route);
    }
}

/// The descriptor of some methods.
pub open spec fn descriptor(methods: Seq<Seq<char>>) -> JsonView {
    JsonView::Object(
        seq![
            (
                "methods"@,
                JsonView::List(
                    methods.map_values(
                        |nsid: Seq<char>|
                            JsonView::Object(
                                seq![
                                    ("$type"@, JsonView::Text(NSID_ENTRY_TYPE@)),
                                    ("value"@, JsonView::Text(nsid)),
                                ],
                            ),
                    ),
                ),
            ),
        ],
    )
}

/// Writes the descriptor of some methods.
pub fn describe(methods: &Vec<String>) -> (json: Json)
    ensures
        json@ == descriptor(text::texts(methods@)),
{
    let mut entries: Vec<Json> = Vec::new();
    for i in 0..methods.len()
        invariant
            entries@.len() == i,
            forall|j: int|
                0 <= j < i ==> (#[trigger] entries@[j])@ == JsonView::Object(
                    seq![
                        ("$type"@, JsonView::Text(NSID_ENTRY_TYPE@)),
                        ("value"@, JsonView::Text(methods@[j]@)),
                    ],
                ),
    {
        let entry = Json::Object(
            vec![
                ("$type".to_owned(), Json::Text(NSID_ENTRY_TYPE.to_owned())),
                ("value".to_owned(), Json::Text(methods[i].clone())),
            ],
        );
        proof {
            crate::json::lemma_json_views(entry);
            assert(entry@->Object_0 =~= seq![
                ("$type"@, JsonView::Text(NSID_ENTRY_TYPE@)),
                ("value"@, JsonView::Text(methods@[i as int]@)),
            ]);
        }
        entries.push(entry);
    }
    let list = Json::List(entries);
    proof {
        crate::json::lemma_json_views(list);
        assert(list@->List_0 =~= descriptor(text::texts(methods@))->Object_0[0].1->List_0);
    }
    let json = Json::Object(vec![("methods".to_owned(), list)]);
    proof {
        crate::json::lemma_json_views(json);
        assert(json@->Object_0 =~= descriptor(text::texts(methods@))->Object_0);
    }
    json
}

/// A descriptor that this service writes is read, by whoever asks what it serves,
/// as naming just the methods that it was made of.
pub proof fn law_descriptors_read_back(methods: Seq<Seq<char>>, nsid: Seq<char>)
    ensures
        crate::spaces::pds_support::described_methods(descriptor(methods)) matches Some(read) && (
        read.contains(nsid) <==> methods.contains(nsid)),
{
    reveal_strlit("$type");
    reveal_strlit("value");
    assert("$type"@[0] == '$' && "value"@[0] == 'v');
    let members = descriptor(methods)->Object_0;
    crate::json::lemma_lookup_at(members, 0);
    assert(members[0].0 == "methods"@);
    let entries = members[0].1->List_0;
    crate::spaces::pds_support::law_descriptors_name_their_methods(descriptor(methods), entries, nsid);
    assert forall|i: int| 0 <= i < entries.len() implies (#[trigger] entries[i]).get_str("value"@) == Some(
        methods[i],
    ) by {
        let entry = entries[i]->Object_0;
        assert(entry[1].0 == "value"@ && entry[0].0 == "$type"@);
        crate::json::lemma_lookup_at(entry, 1);
    }
    if methods.contains(nsid) {
        let i = choose|i: int| 0 <= i < methods.len() && methods[i] == nsid;
        assert(entries[i].get_str("value"@) == Some(nsid));
    }
}

/// Each advertised method carries the type of its entry.
pub proof fn law_descriptor_entries_have_their_type(methods: Seq<Seq<char>>, i: int)
    requires
        0 <= i < methods.len(),
    ensures
        descriptor(methods).get("methods"@) matches Some(JsonView::List(entries)) && entries.len()
            == methods.len() && entries[i].get_str("$type"@) == Some(
            "community.lexicon.service.describe#nsid"@,
        ),
{
    reveal_strlit("$type");
    reveal_strlit("value");
    assert("$type"@[0] == '$' && "value"@[0] == 'v');
    let members = descriptor(methods)->Object_0;
    crate::json::lemma_lookup_at(members, 0);
    assert(members[0].0 == "methods"@);
    let entries = members[0].1->List_0;
    let entry = entries[i]->Object_0;
    assert(entry[1].0 == "value"@ && entry[0].0 == "$type"@);
    crate::json::lemma_lookup_at(entry, 0);
}

/// Every method of the protocol and of space management is advertised, and the
/// description itself; and nothing outside these namespaces is, so that no alias of
/// older clients is.
pub proof fn law_which_methods_are_advertised(endpoint: Endpoint, nsid: Seq<char>)
    ensures
        routes::protocol_name(endpoint) matches Some(name) ==> is_advertised("com.atproto.space."@ + name),
        simplespace::management_name(endpoint) matches Some(name) ==> is_advertised(
            "com.atproto.simplespace."@ + name,
        ),
        is_advertised("community.lexicon.service.describe"@),
        is_advertised(nsid) ==> text::has_prefix(nsid, "com.atproto.space."@) || text::has_prefix(
            nsid,
            "com.atproto.simplespace."@,
        ) || nsid == "community.lexicon.service.describe"@,
{
    let protocol = routes::protocol_methods();
    let management = simplespace::management_methods();
    let served = served_methods();
    routes::law_the_protocol_is_served_under_its_names(endpoint, 0);
    simplespace::law_management_is_served_under_its_names(endpoint, 0);
    if let Some(name) = routes::protocol_name(endpoint) {
        let method = ("com.atproto.space."@ + name, endpoint);
        let i = choose|i: int| 0 <= i < protocol.len() && protocol[i] == method;
        assert(served[i] == method);
    }
    if let Some(name) = simplespace::management_name(endpoint) {
        let method = ("com.atproto.simplespace."@ + name, endpoint);
        let i = choose|i: int| 0 <= i < management.len() && management[i] == method;
        assert(served[protocol.len() + i] == method);
    }
    assert(served[(protocol.len() + management.len()) as int].0 == DESCRIBE_NSID@);
    if is_advertised(nsid) {
        let i = choose|i: int| 0 <= i < served.len() && (#[trigger] served[i]).0 == nsid;
        if i < protocol.len() {
            assert(served[i] == protocol[i]);
            routes::law_the_protocol_is_served_under_its_names(endpoint, i);
            let space = "com.atproto.space."@;
            if nsid == "com.atproto.space.getRepoState"@ {
                reveal_strlit("com.atproto.space.getRepoState");
                reveal_strlit("com.atproto.space.");
                assert(nsid.take(18) =~= space);
            } else {
                assert(nsid.take(space.len() as int) =~= space);
            }
        } else if i < protocol.len() + management.len() {
            let j = i - protocol.len();
            assert(served[i] == management[j]);
            simplespace::law_management_is_served_under_its_names(endpoint, j);
            let space = "com.atproto.simplespace."@;
            assert(nsid.take(space.len() as int) =~= space);
        }
    }
}

} // verus!
