//! Detecting whether a PDS serves spaces.
//!
//! There are two tiers. A descriptor of the server's methods is the declarative
//! answer, and where a host serves one it is authoritative. Without one, the
//! detector calls a method and reads the status, which is the only signal from a
//! host that publishes no list. Several statuses are ambiguous, so what is
//! concluded from them is narrow.
use vstd::prelude::*;

use crate::json::{Json, JsonView};
use crate::spaces::types;
use crate::text;

verus! {

/// The method that describes a service.
pub const DESCRIBE_NSID: &'static str = "community.lexicon.service.describe";

/// The method that shows that a server routes spaces.
///
/// It must be one that needs authentication. A missing route can answer 400, and
/// so can a present one that misses a parameter; only a 401 tells them apart.
pub const PROBE_METHOD: &'static str = "com.atproto.space.listSpaces";

/// A method that cannot exist, to catch a host that answers all alike.
pub const CONTROL_METHOD: &'static str = "com.atproto.space.zzzProbeControlDoesNotExist";

/// For how many seconds a positive answer is trusted.
pub const POSITIVE_TTL_SECS: u64 = 3600;

/// For how many seconds a negative answer is trusted. It is short, because a
/// stale no is worse than a stale yes: nobody can correct it, and it also stands
/// for failures that say nothing of the server.
pub const NEGATIVE_TTL_SECS: u64 = 300;

/// Which tier produced an answer.
#[derive(Debug, Clone, Copy, PartialEq, Eq, Structural)]
pub enum DetectionTier {
    /// The server stated its own methods.
    Descriptor,
    /// Inferred from how the server answers a method that needs authentication.
    Probe,
    /// The server could not be reached, which is not evidence about it.
    Unreachable,
}

impl DetectionTier {
    /// The word for a tier.
    pub open spec fn text(self) -> Seq<char> {
        match self {
            DetectionTier::Descriptor => "descriptor"@,
            DetectionTier::Probe => "probe"@,
            DetectionTier::Unreachable => "unreachable"@,
        }
    }

    /// The tier that a word stands for.
    pub open spec fn of_text(word: Seq<char>) -> Option<DetectionTier> {
        if word == "descriptor"@ {
            Some(DetectionTier::Descriptor)
        } else if word == "probe"@ {
            Some(DetectionTier::Probe)
        } else if word == "unreachable"@ {
            Some(DetectionTier::Unreachable)
        } else {
            None
        }
    }

    /// The word for a tier.
    pub fn as_str(self) -> (word: &'static str)
        ensures
            word@ == self.text(),
    {
        match self {
            DetectionTier::Descriptor => "descriptor",
            DetectionTier::Probe => "probe",
            DetectionTier::Unreachable => "unreachable",
        }
    }

    /// The tier that a word stands for.
    pub fn parse(value: &str) -> (tier: Option<DetectionTier>)
        ensures
            tier == DetectionTier::of_text(value@),
    {
        if text::same_text(value, "descriptor") {
            Some(DetectionTier::Descriptor)
        } else if text::same_text(value, "probe") {
            Some(DetectionTier::Probe)
        } else if text::same_text(value, "unreachable") {
            Some(DetectionTier::Unreachable)
        } else {
            None
        }
    }
}

/// Reading the word for a tier gives the tier.
pub proof fn law_tier_word_round_trip(tier: DetectionTier)
    ensures
        DetectionTier::of_text(tier.text()) == Some(tier),
{
    reveal_strlit("descriptor");
    reveal_strlit("probe");
    reveal_strlit("unreachable");
    assert("descriptor"@.len() == 10 && "probe"@.len() == 5 && "unreachable"@.len() == 11);
}

/// What is known of a PDS's support for spaces.
#[derive(Debug)]
pub struct SpaceSupport {
    pub supported: bool,
    pub pds: String,
    pub tier: DetectionTier,
    /// Required methods that the server does not offer. Only a descriptor tells
    /// which those are; a negative answer of another tier lists all of them.
    pub missing: Vec<String>,
    pub checked_at: String,
}

/// What a [`SpaceSupport`] says.
#[verifier::ext_equal]
pub struct SupportView {
    pub supported: bool,
    pub pds: Seq<char>,
    pub tier: DetectionTier,
    pub missing: Seq<Seq<char>>,
    pub checked_at: Seq<char>,
}

impl View for SpaceSupport {
    type V = SupportView;

    open spec fn view(&self) -> SupportView {
        SupportView {
            supported: self.supported,
            pds: self.pds@,
            tier: self.tier,
            missing: text::texts(self.missing@),
            checked_at: self.checked_at@,
        }
    }
}

impl SpaceSupport {
    /// A negative answer.
    pub fn unsupported(pds: &str, tier: DetectionTier, missing: Vec<String>, checked_at: &str) -> (support:
        SpaceSupport)
        ensures
            support@ == (SupportView {
                supported: false,
                pds: pds@,
                tier,
                missing: text::texts(missing@),
                checked_at: checked_at@,
            }),
    {
        SpaceSupport {
            supported: false,
            pds: pds.to_owned(),
            tier,
            missing,
            checked_at: checked_at.to_owned(),
        }
    }

    /// A positive answer.
    pub fn supported(pds: &str, tier: DetectionTier, checked_at: &str) -> (support: SpaceSupport)
        ensures
            support@ == (SupportView {
                supported: true,
                pds: pds@,
                tier,
                missing: Seq::empty(),
                checked_at: checked_at@,
            }),
    {
        let support = SpaceSupport {
            supported: true,
            pds: pds.to_owned(),
            tier,
            missing: Vec::new(),
            checked_at: checked_at.to_owned(),
        };
        assert(text::texts(support.missing@) =~= Seq::empty());
        support
    }
}

/// The methods that a repo's host must serve for moving there to be worth
/// attempting, each by the names it goes under: implementations lag behind
/// renames, and one name is enough.
pub open spec fn required_methods() -> Seq<Seq<Seq<char>>> {
    seq![
        seq!["com.atproto.simplespace.createSpace"@],
        seq!["com.atproto.simplespace.putMember"@, "com.atproto.simplespace.addMember"@],
        seq!["com.atproto.simplespace.getSpace"@, "com.atproto.space.getSpace"@],
        seq!["com.atproto.space.createRecord"@],
        seq!["com.atproto.space.applyWrites"@],
        seq!["com.atproto.space.listRecords"@],
        seq!["com.atproto.space.listRepoOps"@],
        seq!["com.atproto.space.getLatestCommit"@, "com.atproto.space.getRepoState"@],
        seq!["com.atproto.space.getDelegationToken"@],
    ]
}

/// The names that a required method goes under.
struct Spellings {
    name: &'static str,
    other: Option<&'static str>,
}

spec fn spelled(s: Spellings) -> Seq<Seq<char>> {
    match s.other {
        Some(other) => seq![s.name@, other@],
        None => seq![s.name@],
    }
}

fn required() -> (list: Vec<Spellings>)
    ensures
        list@.len() == required_methods().len(),
        forall|i: int| 0 <= i < list@.len() ==> spelled(#[trigger] list@[i]) == required_methods()[i],
{
    vec![
        Spellings { name: "com.atproto.simplespace.createSpace", other: None },
        Spellings {
            name: "com.atproto.simplespace.putMember",
            other: Some("com.atproto.simplespace.addMember"),
        },
        Spellings {
            name: "com.atproto.simplespace.getSpace",
            other: Some("com.atproto.space.getSpace"),
        },
        Spellings { name: "com.atproto.space.createRecord", other: None },
        Spellings { name: "com.atproto.space.applyWrites", other: None },
        Spellings { name: "com.atproto.space.listRecords", other: None },
        Spellings { name: "com.atproto.space.listRepoOps", other: None },
        Spellings {
            name: "com.atproto.space.getLatestCommit",
            other: Some("com.atproto.space.getRepoState"),
        },
        Spellings { name: "com.atproto.space.getDelegationToken", other: None },
    ]
}

/// The current name of each required method.
pub open spec fn required_names() -> Seq<Seq<char>> {
    required_methods().map_values(|spellings: Seq<Seq<char>>| spellings[0])
}

/// The current name of each required method.
pub fn all_required_names() -> (names: Vec<String>)
    ensures
        text::texts(names@) == required_names(),
{
    let list = required();
    let mut names: Vec<String> = Vec::new();
    for i in 0..list.len()
        invariant
            list@.len() == required_methods().len(),
            forall|j: int| 0 <= j < list@.len() ==> spelled(#[trigger] list@[j]) == required_methods()[j],
            names@.len() == i,
            forall|j: int| 0 <= j < i ==> (#[trigger] names@[j])@ == required_methods()[j][0],
    {
        assert(spelled(list@[i as int])[0] == list@[i as int].name@);
        names.push(list[i].name.to_owned());
    }
    assert(text::texts(names@) =~= required_names());
    names
}

/// Whether one of the names of a method is among a server's methods.
pub open spec fn offered(spellings: Seq<Seq<char>>, methods: Seq<Seq<char>>) -> bool {
    exists|i: int| 0 <= i < spellings.len() && methods.contains(#[trigger] spellings[i])
}

/// The current names of the methods that a server does not offer.
pub open spec fn missing_of(required: Seq<Seq<Seq<char>>>, methods: Seq<Seq<char>>) -> Seq<Seq<char>>
    decreases required.len(),
{
    if required.len() == 0 {
        Seq::empty()
    } else {
        let head = missing_of(required.drop_last(), methods);
        if offered(required.last(), methods) {
            head
        } else {
            head.push(required.last()[0])
        }
    }
}

/// The current names of the required methods that a server does not offer.
pub fn missing_methods(methods: &Vec<String>) -> (missing: Vec<String>)
    ensures
        text::texts(missing@) == missing_of(required_methods(), text::texts(methods@)),
{
    let list = required();
    let ghost all = required_methods();
    let ghost offers = text::texts(methods@);
    let mut missing: Vec<String> = Vec::new();
    assert(text::texts(missing@) =~= missing_of(all.take(0), offers));
    for i in 0..list.len()
        invariant
            all == required_methods(),
            offers == text::texts(methods@),
            list@.len() == all.len(),
            forall|j: int| 0 <= j < list@.len() ==> spelled(#[trigger] list@[j]) == all[j],
            text::texts(missing@) == missing_of(all.take(i as int), offers),
    {
        let ghost before = text::texts(missing@);
        assert(all.take(i + 1).drop_last() =~= all.take(i as int));
        assert(all.take(i + 1).last() == all[i as int]);
        let s = &list[i];
        let ghost names = spelled(*s);
        let found = text::list_contains(methods, s.name) || match s.other {
            Some(other) => text::list_contains(methods, other),
            None => false,
        };
        proof {
            if found {
                if offers.contains(names[0]) {
                } else {
                    assert(offers.contains(names[1]));
                }
                assert(offered(names, offers));
            } else {
                assert(!offered(names, offers)) by {
                    if offered(names, offers) {
                        let k = choose|k: int|
                            0 <= k < names.len() && offers.contains(#[trigger] names[k]);
                        assert(k == 0 || k == 1);
                    }
                }
            }
            assert(names[0] == s.name@);
        }
        if !found {
            missing.push(s.name.to_owned());
            assert(text::texts(missing@) =~= before.push(names[0]));
        }
    }
    assert(all.take(all.len() as int) =~= all);
    missing
}

/// Where a server answers a method.
pub fn method_url(pds: &str, nsid: &str) -> (url: String)
    ensures
        url@ == text::trimmed_end(pds@, '/') + "/xrpc/"@ + nsid@,
{
    text::cat3(text::trim_end_matches(pds, '/'), "/xrpc/", nsid)
}

/// The methods that a list of a descriptor names: entries that name none are
/// passed over.
pub open spec fn listed_methods(entries: Seq<JsonView>) -> Seq<Seq<char>>
    decreases entries.len(),
{
    if entries.len() == 0 {
        Seq::empty()
    } else {
        let head = listed_methods(entries.drop_last());
        match entries.last().get_str("value"@) {
            Some(nsid) => head.push(nsid),
            None => head,
        }
    }
}

/// The methods that a descriptor names, if it is one.
pub open spec fn described_methods(body: JsonView) -> Option<Seq<Seq<char>>> {
    match body.get("methods"@) {
        Some(JsonView::List(entries)) => Some(listed_methods(entries)),
        _ => None,
    }
}

/// Reads the methods that a descriptor names. `None` means no answer, not no
/// spaces: a server that answers this method with anything else may well serve
/// them.
pub fn read_descriptor(body: &Json) -> (methods: Option<Vec<String>>)
    ensures
        match methods {
            Some(list) => described_methods(body@) == Some(text::texts(list@)),
            None => described_methods(body@) is None,
        },
{
    let entries: &Vec<Json> = match body.get("methods") {
        Some(value) => match value.as_list() {
            Some(entries) => entries,
            None => {
                return None;
            },
        },
        None => {
            return None;
        },
    };
    let ghost views = crate::json::json_views(entries@);
    let mut methods: Vec<String> = Vec::new();
    assert(text::texts(methods@) =~= listed_methods(views.take(0)));
    for i in 0..entries.len()
        invariant
            views == crate::json::json_views(entries@),
            text::texts(methods@) == listed_methods(views.take(i as int)),
    {
        let ghost before = text::texts(methods@);
        assert(views.take(i + 1).drop_last() =~= views.take(i as int));
        assert(views.take(i + 1).last() == entries@[i as int]@);
        if let Some(nsid) = entries[i].get_str("value") {
            methods.push(nsid.to_owned());
            assert(text::texts(methods@) =~= before.push(nsid@));
        }
    }
    assert(views.take(views.len() as int) =~= views);
    Some(methods)
}

/// What the two tiers conclude: from the methods of a descriptor if there is one,
/// and else from the statuses of a method and of one that cannot exist.
pub open spec fn detected(
    pds: Seq<char>,
    described: Option<Seq<Seq<char>>>,
    probed: Option<u16>,
    control: Option<u16>,
    now: Seq<char>,
) -> SupportView {
    match described {
        Some(methods) => {
            let missing = missing_of(required_methods(), methods);
            SupportView {
                supported: missing.len() == 0,
                pds,
                tier: DetectionTier::Descriptor,
                missing,
                checked_at: now,
            }
        },
        None => match (probed, control) {
            (Some(r), Some(c)) => {
                let supported = r != c && r == 401;
                SupportView {
                    supported,
                    pds,
                    tier: DetectionTier::Probe,
                    missing: if supported {
                        Seq::empty()
                    } else {
                        required_names()
                    },
                    checked_at: now,
                }
            },
            _ => SupportView {
                supported: false,
                pds,
                tier: DetectionTier::Unreachable,
                missing: required_names(),
                checked_at: now,
            },
        },
    }
}

/// Concludes from the methods of a descriptor, or where there is none from the
/// statuses of [`PROBE_METHOD`] and [`CONTROL_METHOD`], each `None` where the
/// server could not be reached.
///
/// A host that answers a method that cannot exist in the same way gives no
/// signal, and only a 401 shows that the route exists.
pub fn probe(
    pds: &str,
    described: Option<&Vec<String>>,
    probed: Option<u16>,
    control: Option<u16>,
    now: &str,
) -> (support: SpaceSupport)
    ensures
        support@ == detected(
            pds@,
            match described {
                Some(methods) => Some(text::texts(methods@)),
                None => None,
            },
            probed,
            control,
            now@,
        ),
{
    if let Some(methods) = described {
        let missing = missing_methods(methods);
        assert(text::texts(missing@).len() == missing@.len());
        return if missing.len() == 0 {
            assert(text::texts(missing@) =~= Seq::empty());
            SpaceSupport::supported(pds, DetectionTier::Descriptor, now)
        } else {
            SpaceSupport::unsupported(pds, DetectionTier::Descriptor, missing, now)
        };
    }
    match (probed, control) {
        (Some(r), Some(c)) => if r != c && r == 401 {
            SpaceSupport::supported(pds, DetectionTier::Probe, now)
        } else {
            SpaceSupport::unsupported(pds, DetectionTier::Probe, all_required_names(), now)
        },
        _ => SpaceSupport::unsupported(pds, DetectionTier::Unreachable, all_required_names(), now),
    }
}

/// A server is taken to support spaces only on evidence: it names all that is
/// required, or it asks for authentication where it does not for a method that
/// cannot exist. Whatever is concluded, methods are missing just if it does not.
pub proof fn law_support_needs_evidence(
    pds: Seq<char>,
    described: Option<Seq<Seq<char>>>,
    probed: Option<u16>,
    control: Option<u16>,
    now: Seq<char>,
)
    ensures
        detected(pds, described, probed, control, now).supported ==> match described {
            Some(methods) => forall|i: int|
                0 <= i < required_methods().len() ==> offered(#[trigger] required_methods()[i], methods),
            None => probed == Some(401u16) && control is Some && control != probed,
        },
        detected(pds, described, probed, control, now).supported <==> detected(
            pds,
            described,
            probed,
            control,
            now,
        ).missing.len() == 0,
{
    if let Some(methods) = described {
        lemma_nothing_missing(required_methods(), methods);
    }
    assert(required_names().len() == 9);
}

proof fn lemma_nothing_missing(required: Seq<Seq<Seq<char>>>, methods: Seq<Seq<char>>)
    ensures
        missing_of(required, methods).len() == 0 ==> forall|i: int|
            0 <= i < required.len() ==> offered(#[trigger] required[i], methods),
    decreases required.len(),
{
    if required.len() > 0 {
        lemma_nothing_missing(required.drop_last(), methods);
        if missing_of(required, methods).len() == 0 {
            assert forall|i: int| 0 <= i < required.len() implies offered(
                #[trigger] required[i],
                methods,
            ) by {
                if i < required.len() - 1 {
                    assert(required.drop_last()[i] == required[i]);
                }
            }
        }
    }
}

/// Whether an answer is still trusted at an instant: it has a time, not in the
/// future, and is not too old.
pub open spec fn fresh_at(checked_at: Seq<char>, supported: bool, now_secs: i64, now_nanos: u32) -> bool {
    match crate::ambient::age_secs_of(checked_at, now_secs, now_nanos) {
        None => false,
        Some(age) => age < if supported {
            POSITIVE_TTL_SECS
        } else {
            NEGATIVE_TTL_SECS
        },
    }
}

/// Whether an answer is still trusted at an instant.
pub fn is_fresh_at(checked_at: &str, supported: bool, now_secs: i64, now_nanos: u32) -> (yes: bool)
    ensures
        yes == fresh_at(checked_at@, supported, now_secs, now_nanos),
{
    match crate::ambient::rfc3339_age_secs(checked_at, now_secs, now_nanos) {
        None => false,
        Some(age) => if supported {
            age < POSITIVE_TTL_SECS
        } else {
            age < NEGATIVE_TTL_SECS
        },
    }
}

/// Whether an answer is still trusted now.
pub fn is_fresh(checked_at: &str, supported: bool) -> (yes: bool)
    ensures
        exists|now_secs: i64, now_nanos: u32|
            yes == #[trigger] fresh_at(checked_at@, supported, now_secs, now_nanos),
{
    let (now_secs, now_nanos) = crate::ambient::now_instant();
    is_fresh_at(checked_at, supported, now_secs, now_nanos)
}

/// A negative answer is never trusted for longer than a positive one.
pub proof fn law_negatives_expire_first(checked_at: Seq<char>, now_secs: i64, now_nanos: u32)
    ensures
        fresh_at(checked_at, false, now_secs, now_nanos) ==> fresh_at(
            checked_at,
            true,
            now_secs,
            now_nanos,
        ),
{
}

/// What is stored of an answer.
#[derive(Debug)]
pub struct SupportRow {
    pub supported: i32,
    pub tier: String,
    /// The missing methods, as JSON.
    pub missing: Vec<u8>,
    pub checked_at: String,
}

/// The missing methods that a row holds: none if it holds no list of texts.
pub open spec fn stored_missing(bytes: Seq<u8>) -> Seq<Seq<char>> {
    match crate::json::json_parsed(bytes) {
        Ok(JsonView::List(items)) => match types::text_list(items) {
            Some(list) => list,
            None => Seq::empty(),
        },
        _ => Seq::empty(),
    }
}

/// What a row says of a PDS.
pub open spec fn stored_support(pds: Seq<char>, row: SupportRow) -> SupportView {
    SupportView {
        supported: row.supported != 0,
        pds,
        tier: match DetectionTier::of_text(row.tier@) {
            Some(tier) => tier,
            None => DetectionTier::Probe,
        },
        missing: stored_missing(row.missing@),
        checked_at: row.checked_at@,
    }
}

/// Reads an answer that was stored.
pub fn read_row(pds: &str, row: SupportRow) -> (support: SpaceSupport)
    ensures
        support@ == stored_support(pds@, row),
{
    let missing: Vec<String> = match Json::from_slice(row.missing.as_slice()) {
        Ok(value) => match value.as_list() {
            Some(items) => match types::read_text_list(items) {
                Some(list) => list,
                None => Vec::new(),
            },
            None => Vec::new(),
        },
        Err(_) => Vec::new(),
    };
    assert(text::texts(missing@) =~= stored_missing(row.missing@));
    let tier = match DetectionTier::parse(row.tier.as_str()) {
        Some(tier) => tier,
        None => DetectionTier::Probe,
    };
    SpaceSupport {
        supported: row.supported != 0,
        pds: pds.to_owned(),
        tier,
        missing,
        checked_at: row.checked_at,
    }
}

/// What is to be stored of an answer. Reading it gives the answer back.
pub fn make_row(support: &SpaceSupport) -> (row: SupportRow)
    ensures
        row.supported == (if support.supported {
            1i32
        } else {
            0i32
        }),
        row.tier@ == support.tier.text(),
        row.checked_at@ == support.checked_at@,
        stored_support(support.pds@, row) == support@,
{
    let list = types::json_text_list(&support.missing);
    let missing = list.to_vec();
    proof {
        let items = list@->List_0;
        assert forall|i: int| 0 <= i < items.len() implies (#[trigger] items[i]) is Text by {}
        assert(items.map_values(|v: JsonView| v->Text_0) =~= text::texts(support.missing@));
        law_tier_word_round_trip(support.tier);
    }
    SupportRow {
        supported: if support.supported {
            1
        } else {
            0
        },
        tier: support.tier.as_str().to_owned(),
        missing,
        checked_at: support.checked_at.clone(),
    }
}

/// Whether a stored answer is used at an instant rather than asking again: unless
/// that is forced, as long as it is fresh.
pub open spec fn use_cached(
    cached: Option<SupportView>,
    force: bool,
    now_secs: i64,
    now_nanos: u32,
) -> bool {
    !force && (cached matches Some(support) && fresh_at(
        support.checked_at,
        support.supported,
        now_secs,
        now_nanos,
    ))
}

/// What an optional answer says.
pub open spec fn opt_support(support: Option<SpaceSupport>) -> Option<SupportView> {
    match support {
        Some(support) => Some(support@),
        None => None,
    }
}

/// The stored answer, where it is used at an instant; otherwise the server is to
/// be asked.
pub fn get_support_at(cached: Option<SpaceSupport>, force: bool, now_secs: i64, now_nanos: u32) -> (support:
    Option<SpaceSupport>)
    ensures
        opt_support(support) == if use_cached(opt_support(cached), force, now_secs, now_nanos) {
            opt_support(cached)
        } else {
            None
        },
{
    if force {
        return None;
    }
    match cached {
        Some(support) => if is_fresh_at(
            support.checked_at.as_str(),
            support.supported,
            now_secs,
            now_nanos,
        ) {
            Some(support)
        } else {
            None
        },
        None => None,
    }
}

/// The stored answer, where it is used now; otherwise the server is to be asked.
pub fn get_support(cached: Option<SpaceSupport>, force: bool) -> (support: Option<SpaceSupport>)
    ensures
        exists|now_secs: i64, now_nanos: u32|
            opt_support(support) == if #[trigger] use_cached(
                opt_support(cached),
                force,
                now_secs,
                now_nanos,
            ) {
                opt_support(cached)
            } else {
                None
            },
{
    let (now_secs, now_nanos) = crate::ambient::now_instant();
    get_support_at(cached, force, now_secs, now_nanos)
}

proof fn lemma_missing_of(required: Seq<Seq<Seq<char>>>, methods: Seq<Seq<char>>)
    ensures
        (forall|i: int| 0 <= i < required.len() ==> offered(#[trigger] required[i], methods))
            ==> missing_of(required, methods).len() == 0,
        forall|name: Seq<char>| #[trigger]
            missing_of(required, methods).contains(name) <==> (exists|i: int|
                0 <= i < required.len() && !offered(#[trigger] required[i], methods) && required[i][0]
                    == name),
    decreases required.len(),
{
    let missing = missing_of(required, methods);
    if required.len() > 0 {
        let head = required.drop_last();
        let before = missing_of(head, methods);
        lemma_missing_of(head, methods);
        assert forall|i: int| 0 <= i < head.len() implies head[i] == required[i] by {}
        if forall|i: int| 0 <= i < required.len() ==> offered(#[trigger] required[i], methods) {
            assert forall|i: int| 0 <= i < head.len() implies offered(#[trigger] head[i], methods) by {
                assert(offered(required[i], methods));
            }
            assert(offered(required[required.len() - 1], methods));
        }
        assert forall|name: Seq<char>| #[trigger] missing.contains(name) <==> (exists|i: int|
            0 <= i < required.len() && !offered(#[trigger] required[i], methods) && required[i][0] == name) by {
            if missing.contains(name) {
                let m = choose|m: int| 0 <= m < missing.len() && missing[m] == name;
                if m < before.len() {
                    assert(before[m] == name);
                    assert(before.contains(name));
                    let i = choose|i: int|
                        0 <= i < head.len() && !offered(#[trigger] head[i], methods) && head[i][0] == name;
                    assert(!offered(required[i], methods) && required[i][0] == name);
                } else {
                    assert(!offered(required[required.len() - 1], methods));
                }
            }
            if exists|i: int|
                0 <= i < required.len() && !offered(#[trigger] required[i], methods) && required[i][0] == name {
                let i = choose|i: int|
                    0 <= i < required.len() && !offered(#[trigger] required[i], methods) && required[i][0]
                        == name;
                if i < head.len() {
                    assert(!offered(head[i], methods) && head[i][0] == name);
                    assert(before.contains(name));
                    let m = choose|m: int| 0 <= m < before.len() && before[m] == name;
                    assert(missing[m] == name);
                } else {
                    assert(missing[missing.len() - 1] == name);
                }
            }
        }
    } else {
        assert(missing =~= Seq::empty());
    }
}

/// Whether a server names all that is required, under one name or another.
pub open spec fn names_all(methods: Seq<Seq<char>>) -> bool {
    &&& methods.contains("com.atproto.simplespace.createSpace"@)
    &&& methods.contains("com.atproto.simplespace.putMember"@) || methods.contains(
        "com.atproto.simplespace.addMember"@,
    )
    &&& methods.contains("com.atproto.simplespace.getSpace"@) || methods.contains(
        "com.atproto.space.getSpace"@,
    )
    &&& methods.contains("com.atproto.space.createRecord"@)
    &&& methods.contains("com.atproto.space.applyWrites"@)
    &&& methods.contains("com.atproto.space.listRecords"@)
    &&& methods.contains("com.atproto.space.listRepoOps"@)
    &&& methods.contains("com.atproto.space.getLatestCommit"@) || methods.contains(
        "com.atproto.space.getRepoState"@,
    )
    &&& methods.contains("com.atproto.space.getDelegationToken"@)
}

proof fn lemma_offered(spellings: Seq<Seq<char>>, methods: Seq<Seq<char>>)
    ensures
        spellings.len() == 1 ==> (offered(spellings, methods) <==> methods.contains(spellings[0])),
        spellings.len() == 2 ==> (offered(spellings, methods) <==> methods.contains(spellings[0])
            || methods.contains(spellings[1])),
{
    if offered(spellings, methods) {
        let i = choose|i: int| 0 <= i < spellings.len() && methods.contains(#[trigger] spellings[i]);
        assert(spellings.len() == 1 ==> i == 0);
        assert(spellings.len() == 2 ==> i == 0 || i == 1);
    }
}

proof fn lemma_names_all(methods: Seq<Seq<char>>)
    ensures
        names_all(methods) <==> forall|i: int|
            0 <= i < required_methods().len() ==> offered(#[trigger] required_methods()[i], methods),
{
    let all = required_methods();
    assert(all.len() == 9);
    lemma_offered(all[0], methods);
    lemma_offered(all[1], methods);
    lemma_offered(all[2], methods);
    lemma_offered(all[3], methods);
    lemma_offered(all[4], methods);
    lemma_offered(all[5], methods);
    lemma_offered(all[6], methods);
    lemma_offered(all[7], methods);
    lemma_offered(all[8], methods);
    if names_all(methods) {
        assert forall|i: int| 0 <= i < all.len() implies offered(#[trigger] all[i], methods) by {
            assert(i == 0 || i == 1 || i == 2 || i == 3 || i == 4 || i == 5 || i == 6 || i == 7 || i == 8);
        }
    }
}

/// Evidence suffices, as well as being needed. A server that names all that is
/// required is taken to support spaces, and one that names less is not. Without a
/// list of methods, a server is taken to support them just if it asks for
/// authentication where it answers a method that cannot exist in any other way.
pub proof fn law_evidence_of_support_suffices(
    pds: Seq<char>,
    methods: Seq<Seq<char>>,
    probed: Option<u16>,
    control: Option<u16>,
    now: Seq<char>,
)
    ensures
        detected(pds, Some(methods), probed, control, now).supported <==> names_all(methods),
        detected(pds, None, probed, control, now).supported <==> probed == Some(401u16) && (
        control matches Some(c) && c != 401),
{
    lemma_names_all(methods);
    lemma_missing_of(required_methods(), methods);
    lemma_nothing_missing(required_methods(), methods);
}

/// An answer is about the server that was asked, at the time it was asked, and says
/// what it rests on: the server's own list if it gave one, the statuses if it gave
/// both, and else that it could not be reached, which never counts as support.
pub proof fn law_answers_say_what_they_rest_on(
    pds: Seq<char>,
    described: Option<Seq<Seq<char>>>,
    probed: Option<u16>,
    control: Option<u16>,
    now: Seq<char>,
)
    ensures
        ({
            let answer = detected(pds, described, probed, control, now);
            &&& answer.pds == pds
            &&& answer.checked_at == now
            &&& (answer.tier == DetectionTier::Descriptor <==> described is Some)
            &&& (answer.tier == DetectionTier::Unreachable <==> described is None && (probed is None
                || control is None))
            &&& (answer.tier == DetectionTier::Unreachable ==> !answer.supported)
        }),
{
}

/// A method is told to be missing, by its current name, just if a list of the
/// server's methods has it under none of its names; and where there is no list, and
/// no support, all of them are.
pub proof fn law_what_is_told_to_be_missing(
    pds: Seq<char>,
    methods: Seq<Seq<char>>,
    probed: Option<u16>,
    control: Option<u16>,
    now: Seq<char>,
    i: int,
)
    requires
        0 <= i < required_methods().len(),
    ensures
        !offered(required_methods()[i], methods) ==> detected(pds, Some(methods), probed, control, now).missing.contains(
            required_methods()[i][0],
        ),
        forall|name: Seq<char>| #[trigger]
            detected(pds, Some(methods), probed, control, now).missing.contains(name) ==> exists|j: int|
                0 <= j < required_methods().len() && !offered(#[trigger] required_methods()[j], methods)
                    && required_methods()[j][0] == name,
        !detected(pds, None, probed, control, now).supported ==> detected(
            pds,
            None,
            probed,
            control,
            now,
        ).missing.contains(required_methods()[i][0]),
{
    lemma_missing_of(required_methods(), methods);
    assert(required_names()[i] == required_methods()[i][0]);
}

/// A positive answer is trusted for an hour and a negative one for five minutes,
/// and an answer without a readable time, or from the future, not at all.
pub proof fn law_how_long_answers_are_trusted(
    checked_at: Seq<char>,
    now_secs: i64,
    now_nanos: u32,
    age: u64,
)
    ensures
        crate::ambient::age_secs_of(checked_at, now_secs, now_nanos) == Some(age) ==> (fresh_at(
            checked_at,
            true,
            now_secs,
            now_nanos,
        ) <==> age < 3600) && (fresh_at(checked_at, false, now_secs, now_nanos) <==> age < 300),
        crate::ambient::age_secs_of(checked_at, now_secs, now_nanos) is None ==> !fresh_at(
            checked_at,
            true,
            now_secs,
            now_nanos,
        ) && !fresh_at(checked_at, false, now_secs, now_nanos),
{
}

/// A stored answer is used unless asking again is forced, as long as it is fresh by
/// its own verdict; without one the server is always asked.
pub proof fn law_when_stored_answers_are_used(
    support: SupportView,
    force: bool,
    now_secs: i64,
    now_nanos: u32,
)
    ensures
        !use_cached(None, force, now_secs, now_nanos),
        !use_cached(Some(support), true, now_secs, now_nanos),
        use_cached(Some(support), false, now_secs, now_nanos) <==> fresh_at(
            support.checked_at,
            support.supported,
            now_secs,
            now_nanos,
        ),
{
}

proof fn lemma_listed_methods(entries: Seq<JsonView>)
    ensures
        forall|nsid: Seq<char>| #[trigger]
            listed_methods(entries).contains(nsid) <==> exists|i: int|
                0 <= i < entries.len() && (#[trigger] entries[i]).get_str("value"@) == Some(nsid),
    decreases entries.len(),
{
    let listed = listed_methods(entries);
    if entries.len() > 0 {
        let head = entries.drop_last();
        let before = listed_methods(head);
        lemma_listed_methods(head);
        assert forall|i: int| 0 <= i < head.len() implies head[i] == entries[i] by {}
        assert forall|nsid: Seq<char>| #[trigger] listed.contains(nsid) <==> exists|i: int|
            0 <= i < entries.len() && (#[trigger] entries[i]).get_str("value"@) == Some(nsid) by {
            if listed.contains(nsid) {
                let m = choose|m: int| 0 <= m < listed.len() && listed[m] == nsid;
                if m < before.len() {
                    assert(before[m] == nsid);
                    assert(before.contains(nsid));
                    let i = choose|i: int|
                        0 <= i < head.len() && (#[trigger] head[i]).get_str("value"@) == Some(nsid);
                    assert(entries[i].get_str("value"@) == Some(nsid));
                } else {
                    assert(entries[entries.len() - 1].get_str("value"@) == Some(nsid));
                }
            }
            if exists|i: int|
                0 <= i < entries.len() && (#[trigger] entries[i]).get_str("value"@) == Some(nsid) {
                let i = choose|i: int|
                    0 <= i < entries.len() && (#[trigger] entries[i]).get_str("value"@) == Some(nsid);
                if i < head.len() {
                    assert(head[i].get_str("value"@) == Some(nsid));
                    assert(before.contains(nsid));
                    let m = choose|m: int| 0 <= m < before.len() && before[m] == nsid;
                    assert(listed[m] == nsid);
                } else {
                    assert(listed[listed.len() - 1] == nsid);
                }
            }
        }
    } else {
        assert(listed =~= Seq::empty());
    }
}

/// A descriptor names just the methods that its entries give as their value, and
/// what has no list of methods is no descriptor.
pub proof fn law_descriptors_name_their_methods(body: JsonView, entries: Seq<JsonView>, nsid: Seq<char>)
    ensures
        body.get("methods"@) == Some(JsonView::List(entries)) ==> (described_methods(body)
            matches Some(methods) && (methods.contains(nsid) <==> exists|i: int|
            0 <= i < entries.len() && (#[trigger] entries[i]).get_str("value"@) == Some(nsid))),
        (body.get("methods"@) is None || body.get("methods"@)->0.as_list() is None) ==> described_methods(
            body,
        ) is None,
{
    lemma_listed_methods(entries);
}

/// A stored answer says that a PDS supports spaces just if its number is not zero,
/// rests on what its word says, and lists as missing the texts of its list; a word
/// that says nothing stands for a probe, and what is no list of texts for none.
pub proof fn law_stored_answers_say_what_was_stored(pds: Seq<char>, row: SupportRow)
    ensures
        stored_support(pds, row).supported <==> row.supported != 0,
        stored_support(pds, row).pds == pds,
        stored_support(pds, row).checked_at == row.checked_at@,
        DetectionTier::of_text(row.tier@) matches Some(tier) ==> stored_support(pds, row).tier == tier,
        DetectionTier::of_text(row.tier@) is None ==> stored_support(pds, row).tier == DetectionTier::Probe,
        crate::json::json_parsed(row.missing@) matches Ok(JsonView::List(items)) ==> ((forall|i: int|
            0 <= i < items.len() ==> (#[trigger] items[i]) is Text) ==> stored_support(pds, row).missing.len()
            == items.len() && forall|i: int|
            0 <= i < items.len() ==> (#[trigger] items[i]) == JsonView::Text(
                stored_support(pds, row).missing[i],
            )),
        stored_support(pds, row).missing.len() > 0 ==> crate::json::json_parsed(row.missing@) matches Ok(
            JsonView::List(_),
        ),
{
}

} // verus!
