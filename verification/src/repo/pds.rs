//! Requests to a user's PDS: the credentials they are made with, the headers that
//! are passed on, and what the answers mean.
use vstd::prelude::*;

use crate::auth::Claims;
use crate::error::{AppError, ErrorView};
use crate::json::Json;
use crate::text;
use crate::url;

verus! {

/// A lower-case letter.
pub open spec fn is_lower(c: char) -> bool {
    'a' <= c <= 'z'
}

/// A letter, a digit, or one of `._-`, with which a DID may end.
pub open spec fn may_end_did(c: char) -> bool {
    is_lower(c) || 'A' <= c <= 'Z' || '0' <= c <= '9' || c == '.' || c == '_' || c == '-'
}

/// Whether a text is a DID: `did:`, a method of lower-case letters, a colon, and
/// an identifier, in no more than 2048 characters.
pub open spec fn is_did(value: Seq<char>) -> bool {
    &&& value.len() <= 2048
    &&& text::has_prefix(value, "did:"@)
    &&& exists|k: int| #[trigger] has_method(value, k)
}

/// Whether the method of a DID ends at an index, and what follows is an
/// identifier.
pub open spec fn has_method(value: Seq<char>, k: int) -> bool {
    &&& 4 < k < value.len() - 1
    &&& value[k] == ':'
    &&& forall|i: int| 4 <= i < k ==> is_lower(#[trigger] value[i])
    &&& forall|i: int|
        k < i < value.len() ==> may_end_did(#[trigger] value[i]) || value[i] == ':' || value[i] == '%'
    &&& may_end_did(value[value.len() - 1])
}

/// Whether a text is a DID, with `atrium_api::types::string::Did::new`.
///
/// Trusted: it is one just if it has the form, `did:` and lower-case letters and
/// a colon and an identifier, and is not too long.
#[verifier::external_body]
pub(crate) fn did_is_valid(value: &str) -> (yes: bool)
    ensures
        yes == is_did(value@),
{
    atrium_api::types::string::Did::new(value.to_owned()).is_ok()
}

/// The DID and the service that an `atproto-proxy` header names.
pub open spec fn proxy_header_of(value: Seq<char>) -> Result<(Seq<char>, Seq<char>), ErrorView> {
    match text::parted_last(value, '#') {
        None => Err(
            ErrorView::BadRequest("atproto-proxy must be <did>#<service-type>, got: "@ + value),
        ),
        Some((did, service)) => if service.len() == 0 {
            Err(
                ErrorView::BadRequest(
                    "atproto-proxy is missing a service type after '#': "@ + value,
                ),
            )
        } else if !is_did(did) {
            Err(ErrorView::BadRequest("atproto-proxy has an invalid DID: "@ + did))
        } else {
            Ok((did, service))
        },
    }
}

/// What two texts are.
pub open spec fn pair_view(pair: (String, String)) -> (Seq<char>, Seq<char>) {
    (pair.0@, pair.1@)
}

/// Splits an `atproto-proxy` header into its DID and its service, such as
/// `did:web:api.bsky.app#bsky_appview`. It is split from the right, and anything
/// without a service is refused rather than guessed.
pub fn parse_proxy_header(value: &str) -> (result: Result<(String, String), AppError>)
    ensures
        match result {
            Ok(pair) => proxy_header_of(value@) == Ok::<(Seq<char>, Seq<char>), ErrorView>(
                pair_view(pair),
            ),
            Err(error) => proxy_header_of(value@) == Err::<(Seq<char>, Seq<char>), ErrorView>(error@),
        },
{
    let (did, service) = match text::rsplit_once(value, '#') {
        Some(parts) => parts,
        None => {
            return Err(
                AppError::BadRequest(
                    text::cat2("atproto-proxy must be <did>#<service-type>, got: ", value),
                ),
            );
        },
    };
    if service.unicode_len() == 0 {
        return Err(
            AppError::BadRequest(
                text::cat2("atproto-proxy is missing a service type after '#': ", value),
            ),
        );
    }
    if !did_is_valid(did) {
        return Err(
            AppError::BadRequest(text::cat2("atproto-proxy has an invalid DID: ", did)),
        );
    }
    Ok((did.to_owned(), service.to_owned()))
}

/// What an entry of an `atproto-accept-labelers` header names: a DID, and whether
/// its labels redact.
pub open spec fn labeler_entry(entry: Seq<char>) -> (Seq<char>, bool) {
    match text::parted(entry, ';') {
        Some((did, rest)) => (text::trimmed(did), text::trimmed(rest) == "redact"@),
        None => (entry, false),
    }
}

/// The labelers that entries name, the empty ones passed over.
pub open spec fn labelers_of(entries: Seq<Seq<char>>) -> Result<Seq<(Seq<char>, bool)>, ErrorView>
    decreases entries.len(),
{
    if entries.len() == 0 {
        Ok(Seq::empty())
    } else {
        match labelers_of(entries.drop_last()) {
            Err(error) => Err(error),
            Ok(head) => {
                let entry = text::trimmed(entries.last());
                if entry.len() == 0 {
                    Ok(head)
                } else {
                    let (did, redact) = labeler_entry(entry);
                    if is_did(did) {
                        Ok(head.push((did, redact)))
                    } else {
                        Err(
                            ErrorView::BadRequest(
                                "atproto-accept-labelers has an invalid DID: "@ + did,
                            ),
                        )
                    }
                }
            },
        }
    }
}

/// What a list of labelers is.
pub open spec fn labeler_views(list: Seq<(String, bool)>) -> Seq<(Seq<char>, bool)> {
    list.map_values(|l: (String, bool)| (l.0@, l.1))
}

proof fn lemma_labelers_prefix(entries: Seq<Seq<char>>, n: int)
    requires
        0 <= n <= entries.len(),
        labelers_of(entries.take(n)) is Err,
    ensures
        labelers_of(entries) == labelers_of(entries.take(n)),
    decreases entries.len() - n,
{
    if n < entries.len() {
        assert(entries.take(n + 1).drop_last() =~= entries.take(n));
        lemma_labelers_prefix(entries, n + 1);
    } else {
        assert(entries.take(n) =~= entries);
    }
}

/// Reads an `atproto-accept-labelers` header: DIDs between commas, each followed
/// by `;redact` or not.
pub fn parse_labelers_header(value: &str) -> (result: Result<Vec<(String, bool)>, AppError>)
    ensures
        match result {
            Ok(list) => labelers_of(text::split_on(value@, ',')) == Ok::<
                Seq<(Seq<char>, bool)>,
                ErrorView,
            >(labeler_views(list@)),
            Err(error) => labelers_of(text::split_on(value@, ',')) == Err::<
                Seq<(Seq<char>, bool)>,
                ErrorView,
            >(error@),
        },
{
    let parts = text::split(value, ',');
    let ghost entries = text::texts(parts@);
    let mut labelers: Vec<(String, bool)> = Vec::new();
    assert(labeler_views(labelers@) =~= Seq::empty());
    for i in 0..parts.len()
        invariant
            entries == text::texts(parts@),
            entries == text::split_on(value@, ','),
            labelers_of(entries.take(i as int)) == Ok::<Seq<(Seq<char>, bool)>, ErrorView>(
                labeler_views(labelers@),
            ),
    {
        let ghost before = labeler_views(labelers@);
        assert(entries.take(i + 1).drop_last() =~= entries.take(i as int));
        assert(entries.take(i + 1).last() == parts@[i as int]@);
        let entry = text::trim(parts[i].as_str());
        if entry.unicode_len() != 0 {
            let (did, redact) = match text::split_once(entry, ';') {
                Some((did, rest)) => (text::trim(did), text::same_text(text::trim(rest), "redact")),
                None => (entry, false),
            };
            if !did_is_valid(did) {
                proof {
                    lemma_labelers_prefix(entries, i + 1);
                }
                return Err(
                    AppError::BadRequest(
                        text::cat2("atproto-accept-labelers has an invalid DID: ", did),
                    ),
                );
            }
            labelers.push((did.to_owned(), redact));
            assert(labeler_views(labelers@) =~= before.push((did@, redact)));
        }
    }
    assert(entries.take(entries.len() as int) =~= entries);
    Ok(labelers)
}

/// A header that a session is configured with.
#[derive(Debug)]
pub enum ForwardedHeader {
    /// Where the PDS is to pass the request on to.
    Proxy { did: String, service: String },
    /// Whose labels the answer is to carry.
    Labelers(Vec<(String, bool)>),
}

/// What a [`ForwardedHeader`] configures.
#[verifier::ext_equal]
pub enum ForwardedView {
    Proxy { did: Seq<char>, service: Seq<char> },
    Labelers(Seq<(Seq<char>, bool)>),
}

impl View for ForwardedHeader {
    type V = ForwardedView;

    open spec fn view(&self) -> ForwardedView {
        match self {
            ForwardedHeader::Proxy { did, service } => ForwardedView::Proxy {
                did: did@,
                service: service@,
            },
            ForwardedHeader::Labelers(list) => ForwardedView::Labelers(labeler_views(list@)),
        }
    }
}

/// What one header configures: no labelers at all configure nothing.
pub open spec fn forwarded_of(name: Seq<char>, value: Seq<char>) -> Result<
    Option<ForwardedView>,
    ErrorView,
> {
    if name == "atproto-proxy"@ {
        match proxy_header_of(value) {
            Ok((did, service)) => Ok(Some(ForwardedView::Proxy { did, service })),
            Err(error) => Err(error),
        }
    } else if name == "atproto-accept-labelers"@ {
        match labelers_of(text::split_on(value, ',')) {
            Ok(list) => if list.len() == 0 {
                Ok(None)
            } else {
                Ok(Some(ForwardedView::Labelers(list)))
            },
            Err(error) => Err(error),
        }
    } else {
        Err(ErrorView::Internal("unexpected forwarded header: "@ + name))
    }
}

/// Reads a header that is to be passed on. One that cannot be read is an error
/// rather than dropped: dropping `atproto-proxy` would turn "pass this on" into
/// "handle this yourself", a plausible wrong answer instead of a failure.
pub fn forwarded_header(name: &str, value: &str) -> (result: Result<Option<ForwardedHeader>, AppError>)
    ensures
        match result {
            Ok(Some(header)) => forwarded_of(name@, value@) == Ok::<Option<ForwardedView>, ErrorView>(
                Some(header@),
            ),
            Ok(None) => forwarded_of(name@, value@) == Ok::<Option<ForwardedView>, ErrorView>(None),
            Err(error) => forwarded_of(name@, value@) == Err::<Option<ForwardedView>, ErrorView>(error@),
        },
{
    if text::same_text(name, "atproto-proxy") {
        match parse_proxy_header(value) {
            Ok((did, service)) => Ok(Some(ForwardedHeader::Proxy { did, service })),
            Err(error) => Err(error),
        }
    } else if text::same_text(name, "atproto-accept-labelers") {
        match parse_labelers_header(value) {
            Ok(list) => {
                assert(labeler_views(list@).len() == list@.len());
                if list.len() == 0 {
                    Ok(None)
                } else {
                    Ok(Some(ForwardedHeader::Labelers(list)))
                }
            },
            Err(error) => Err(error),
        }
    } else {
        Err(AppError::Internal(text::cat2("unexpected forwarded header: ", name)))
    }
}

/// What a part of a query stands for: a plus is a space, and what does not decode
/// stands for itself.
pub open spec fn decoded(value: Seq<char>) -> Seq<char> {
    let spaced = text::replaced(value, '+', ' ');
    match url::percent_decoded(spaced) {
        Some(t) => t,
        None => spaced,
    }
}

/// What a part of a query stands for.
pub fn decode(value: &str) -> (out: String)
    ensures
        out@ == decoded(value@),
{
    let spaced = text::replace_char(value, '+', ' ');
    match url::decode(spaced.as_str()) {
        Some(out) => out,
        None => spaced,
    }
}

/// What a pair of a query stands for.
pub open spec fn query_pair(pair: Seq<char>) -> (Seq<char>, Seq<char>) {
    match text::parted(pair, '=') {
        Some((key, value)) => (decoded(key), decoded(value)),
        None => (decoded(pair), Seq::empty()),
    }
}

/// What the pairs of a query stand for, the empty ones passed over.
pub open spec fn query_pairs_of(pairs: Seq<Seq<char>>) -> Seq<(Seq<char>, Seq<char>)>
    decreases pairs.len(),
{
    if pairs.len() == 0 {
        Seq::empty()
    } else {
        let head = query_pairs_of(pairs.drop_last());
        if pairs.last().len() == 0 {
            head
        } else {
            head.push(query_pair(pairs.last()))
        }
    }
}

/// What pairs are.
pub open spec fn pair_views(pairs: Seq<(String, String)>) -> Seq<(Seq<char>, Seq<char>)> {
    pairs.map_values(|p: (String, String)| pair_view(p))
}

/// The parameters of a query, in order, so that repeated keys survive.
pub fn query_pairs(query: &str) -> (pairs: Vec<(String, String)>)
    ensures
        pair_views(pairs@) == query_pairs_of(text::split_on(query@, '&')),
{
    let parts = text::split(query, '&');
    let ghost all = text::texts(parts@);
    let mut pairs: Vec<(String, String)> = Vec::new();
    assert(pair_views(pairs@) =~= query_pairs_of(all.take(0)));
    for i in 0..parts.len()
        invariant
            all == text::texts(parts@),
            pair_views(pairs@) == query_pairs_of(all.take(i as int)),
    {
        let ghost before = pair_views(pairs@);
        assert(all.take(i + 1).drop_last() =~= all.take(i as int));
        assert(all.take(i + 1).last() == parts@[i as int]@);
        let part = parts[i].as_str();
        if part.unicode_len() != 0 {
            let pair = match text::split_once(part, '=') {
                Some((key, value)) => (decode(key), decode(value)),
                None => {
                    let empty = String::new();
                    assert(empty@ =~= Seq::empty());
                    (decode(part), empty)
                },
            };
            assert(pair_view(pair) == query_pair(part@));
            pairs.push(pair);
            assert(pair_views(pairs@) =~= before.push(query_pair(part@)));
        }
    }
    assert(all.take(all.len() as int) =~= all);
    pairs
}

/// The credentials that a request to a PDS is made with.
pub enum PdsAuthPlan {
    /// The user's own session with this service.
    OAuth,
    /// The session of a client, found by the client's key, that is bound to a key.
    Dpop { client_key: String, dpop_key_id: Option<String> },
}

/// Which credentials a request to a PDS is made with: a client's session acts
/// under the client's key, and the dashboard's under its own.
pub fn pds_auth_for_claims(claims: &Claims, has_encryption_key: bool) -> (plan: Result<
    PdsAuthPlan,
    AppError,
>)
    ensures
        match plan {
            Ok(PdsAuthPlan::OAuth) => claims.client_key is None,
            Ok(PdsAuthPlan::Dpop { client_key, dpop_key_id }) => has_encryption_key && text::opt_text(
                claims.client_key,
            ) == Some(client_key@) && text::opt_text(dpop_key_id) == text::opt_text(
                claims.dpop_key_id,
            ),
            Err(error) => claims.client_key is Some && !has_encryption_key && error@
                == ErrorView::Internal("TOKEN_ENCRYPTION_KEY not configured"@),
        },
{
    match &claims.client_key {
        None => Ok(PdsAuthPlan::OAuth),
        Some(client_key) => if !has_encryption_key {
            Err(AppError::Internal("TOKEN_ENCRYPTION_KEY not configured".to_owned()))
        } else {
            Ok(
                PdsAuthPlan::Dpop {
                    client_key: client_key.clone(),
                    dpop_key_id: text::clone_opt(&claims.dpop_key_id),
                },
            )
        },
    }
}

/// The key that a client's session is bound to, or the failure.
pub fn require_dpop_key(dpop_key_id: Option<String>) -> (id: Result<String, AppError>)
    ensures
        crate::error::outcome(id) == (match dpop_key_id {
            Some(i) => Ok(i@),
            None => Err(ErrorView::Internal("DPoP key ID not available in claims"@)),
        }),
{
    match dpop_key_id {
        Some(id) => Ok(id),
        None => Err(AppError::Internal("DPoP key ID not available in claims".to_owned())),
    }
}

/// What a PDS answered, as it came.
pub enum PdsOutput {
    Data(Json),
    Bytes(Vec<u8>),
}

/// The body of an answer.
pub open spec fn body_of(output: PdsOutput) -> Seq<u8> {
    match output {
        PdsOutput::Data(data) => crate::json::json_rendered(crate::json::json_normal(data@)),
        PdsOutput::Bytes(bytes) => bytes@,
    }
}

/// The body of an answer, or the failure of the request with its reason.
pub fn answer_body(output: Result<PdsOutput, String>, failure: &str) -> (body: Result<
    Vec<u8>,
    AppError,
>)
    ensures
        crate::error::outcome(body) == (match output {
            Ok(o) => Ok(body_of(o)),
            Err(e) => Err(ErrorView::Internal(failure@ + e@)),
        }),
{
    match output {
        Ok(PdsOutput::Data(data)) => Ok(data.to_vec()),
        Ok(PdsOutput::Bytes(bytes)) => Ok(bytes),
        Err(e) => Err(AppError::Internal(text::cat2(failure, e.as_str()))),
    }
}

/// The value of an answer to a query, or the failure of the query with its
/// reason.
pub fn answer_json(output: Result<PdsOutput, String>) -> (value: Result<Json, AppError>)
    ensures
        crate::error::outcome(value) == (match output {
            Ok(PdsOutput::Data(data)) => Ok(data@),
            Ok(PdsOutput::Bytes(bytes)) => match crate::json::json_parsed(bytes@) {
                Ok(v) => Ok(v),
                Err(e) => Err(ErrorView::Internal("PDS returned invalid JSON: "@ + e)),
            },
            Err(e) => Err(ErrorView::Internal("PDS query failed: "@ + e@)),
        }),
{
    match output {
        Ok(PdsOutput::Data(data)) => Ok(data),
        Ok(PdsOutput::Bytes(bytes)) => match Json::from_slice(bytes.as_slice()) {
            Ok(value) => Ok(value),
            Err(e) => Err(
                AppError::Internal(text::cat2("PDS returned invalid JSON: ", e.as_str())),
            ),
        },
        Err(e) => Err(AppError::Internal(text::cat2("PDS query failed: ", e.as_str()))),
    }
}

/// Passes an answer of a PDS on: a success with its body, anything else as it
/// is.
pub fn forward_pds_response(status: u16, body: Vec<u8>) -> (result: Result<Vec<u8>, AppError>)
    ensures
        crate::error::outcome(result) == (if 200 <= status < 300 {
            Ok(body@)
        } else {
            Err(ErrorView::PdsError(status, body@))
        }),
{
    if 200 <= status && status < 300 {
        Ok(body)
    } else {
        Err(AppError::PdsError(status, body))
    }
}

/// A proxy header is a DID and the kind of one of its services, with a `#` between
/// them. Anything else is a bad request.
pub proof fn law_proxies_are_a_did_and_a_service(value: Seq<char>, did: Seq<char>, service: Seq<char>)
    ensures
        proxy_header_of(value) == Ok::<(Seq<char>, Seq<char>), ErrorView>((did, service)) <==> {
            &&& value == did + seq!['#'] + service
            &&& is_did(did)
            &&& service.len() > 0
            &&& !service.contains('#')
        },
        proxy_header_of(value) matches Err(error) ==> error is BadRequest,
{
    text::law_parted_at_the_last(value, '#');
    if value == did + seq!['#'] + service && !service.contains('#') {
        if let Some((a, b)) = text::parted_last(value, '#') {
            lemma_one_parting(a, b, did, service);
        } else {
            assert(value[did.len() as int] == '#');
        }
    }
}

proof fn lemma_one_parting(a: Seq<char>, b: Seq<char>, c: Seq<char>, d: Seq<char>)
    requires
        a + seq!['#'] + b == c + seq!['#'] + d,
        !b.contains('#'),
        !d.contains('#'),
    ensures
        a == c,
        b == d,
{
    let value = a + seq!['#'] + b;
    assert(value.len() == a.len() + 1 + b.len());
    assert((c + seq!['#'] + d).len() == c.len() + 1 + d.len());
    assert(value[a.len() as int] == '#');
    assert(value[c.len() as int] == '#') by {
        assert((c + seq!['#'] + d)[c.len() as int] == '#');
    }
    if a.len() < c.len() {
        assert(b[c.len() - a.len() - 1] == value[c.len() as int]);
        assert(b.contains('#'));
    } else if c.len() < a.len() {
        assert(d[a.len() - c.len() - 1] == (c + seq!['#'] + d)[a.len() as int]);
        assert(d.contains('#'));
    }
    assert(a =~= value.take(a.len() as int));
    assert(c =~= (c + seq!['#'] + d).take(c.len() as int));
    assert(b =~= value.skip(a.len() as int + 1));
    assert(d =~= (c + seq!['#'] + d).skip(c.len() as int + 1));
}

/// A labeler's labels are taken out just if `redact` stands behind its DID, and
/// whitespace around either does not matter.
pub proof fn law_labelers_redact_where_they_say(did: Seq<char>, rest: Seq<char>, entry: Seq<char>)
    requires
        !did.contains(';'),
        !entry.contains(';'),
    ensures
        labeler_entry(did + seq![';'] + rest) == (text::trimmed(did), text::trimmed(rest) == "redact"@),
        labeler_entry(entry) == (entry, false),
{
    let whole = did + seq![';'] + rest;
    assert(whole[did.len() as int] == ';');
    assert forall|j: int| 0 <= j < did.len() implies whole[j] != ';' by {
        assert(whole[j] == did[j]);
    }
    text::lemma_first_index_is(whole, ';', did.len() as int);
    assert(whole.take(did.len() as int) =~= did);
    assert(whole.skip(did.len() as int + 1) =~= rest);
    text::law_parted_at_the_first(entry, ';');
}

/// Labelers are read one after the other, in their order; entries that are blank
/// are passed over, and one that is no DID refuses them all.
pub proof fn law_labelers_are_read_one_by_one(entries: Seq<Seq<char>>, entry: Seq<char>)
    ensures
        labelers_of(Seq::empty()) == Ok::<Seq<(Seq<char>, bool)>, ErrorView>(Seq::empty()),
        labelers_of(entries) is Err ==> labelers_of(entries.push(entry)) == labelers_of(entries),
        labelers_of(entries) matches Ok(list) ==> {
            let bare = text::trimmed(entry);
            let (did, redact) = labeler_entry(bare);
            &&& bare.len() == 0 ==> labelers_of(entries.push(entry)) == labelers_of(entries)
            &&& bare.len() > 0 && is_did(did) ==> labelers_of(entries.push(entry)) == Ok::<
                Seq<(Seq<char>, bool)>,
                ErrorView,
            >(list.push((did, redact)))
            &&& bare.len() > 0 && !is_did(did) ==> labelers_of(entries.push(entry)) matches Err(
                ErrorView::BadRequest(_),
            )
        },
{
    assert(entries.push(entry).drop_last() =~= entries);
}

/// Two headers are passed on, each as what it says; a list of labelers that names
/// none is not. No other header is asked for here.
pub proof fn law_which_headers_are_passed_on(
    name: Seq<char>,
    value: Seq<char>,
    did: Seq<char>,
    service: Seq<char>,
    list: Seq<(Seq<char>, bool)>,
)
    ensures
        forwarded_of(name, value) == Ok::<Option<ForwardedView>, ErrorView>(
            Some((ForwardedView::Proxy { did, service })),
        ) <==> name == "atproto-proxy"@ && proxy_header_of(value) == Ok::<
            (Seq<char>, Seq<char>),
            ErrorView,
        >((did, service)),
        forwarded_of(name, value) == Ok::<Option<ForwardedView>, ErrorView>(
            Some(ForwardedView::Labelers(list)),
        ) <==> name == "atproto-accept-labelers"@ && list.len() > 0 && labelers_of(
            text::split_on(value, ','),
        ) == Ok::<Seq<(Seq<char>, bool)>, ErrorView>(list),
        forwarded_of(name, value) == Ok::<Option<ForwardedView>, ErrorView>(None) <==> name
            == "atproto-accept-labelers"@ && (labelers_of(text::split_on(value, ',')) matches Ok(none)
            && none.len() == 0),
        name != "atproto-proxy"@ && name != "atproto-accept-labelers"@ ==> forwarded_of(
            name,
            value,
        ) matches Err(ErrorView::Internal(_)),
{
    reveal_strlit("atproto-proxy");
    reveal_strlit("atproto-accept-labelers");
    assert("atproto-proxy"@.len() == 13 && "atproto-accept-labelers"@.len() == 23);
}

/// A query's text is decoded with a plus standing for a space, and stays as it is
/// otherwise where it does not decode. A pair is parted at its first `=`, and a name
/// without one has an empty value.
pub proof fn law_pairs_are_parted_and_decoded(key: Seq<char>, value: Seq<char>, bare: Seq<char>)
    requires
        !key.contains('='),
        !bare.contains('='),
    ensures
        query_pair(key + seq!['='] + value) == (decoded(key), decoded(value)),
        query_pair(bare) == (decoded(bare), Seq::<char>::empty()),
        ({
            let spaced = Seq::new(
                value.len(),
                |i: int|
                    if value[i] == '+' {
                        ' '
                    } else {
                        value[i]
                    },
            );
            decoded(value) == (match url::percent_decoded(spaced) {
                Some(t) => t,
                None => spaced,
            })
        }),
{
    let whole = key + seq!['='] + value;
    assert(whole[key.len() as int] == '=');
    assert forall|j: int| 0 <= j < key.len() implies whole[j] != '=' by {
        assert(whole[j] == key[j]);
    }
    text::lemma_first_index_is(whole, '=', key.len() as int);
    assert(whole.take(key.len() as int) =~= key);
    assert(whole.skip(key.len() as int + 1) =~= value);
    text::law_parted_at_the_first(bare, '=');
    assert(text::replaced(value, '+', ' ') =~= Seq::new(
        value.len(),
        |i: int|
            if value[i] == '+' {
                ' '
            } else {
                value[i]
            },
    ));
}

/// A query is read pair by pair, in order, and empty pieces are passed over.
pub proof fn law_queries_are_read_pair_by_pair(pairs: Seq<Seq<char>>, pair: Seq<char>)
    ensures
        query_pairs_of(Seq::empty()).len() == 0,
        pair.len() == 0 ==> query_pairs_of(pairs.push(pair)) == query_pairs_of(pairs),
        pair.len() > 0 ==> query_pairs_of(pairs.push(pair)) == query_pairs_of(pairs).push(query_pair(pair)),
{
    assert(pairs.push(pair).drop_last() =~= pairs);
}

/// What a PDS answered with is passed on: bytes as they are, and data as its text.
pub proof fn law_answers_are_passed_on(output: PdsOutput)
    ensures
        output matches PdsOutput::Bytes(bytes) ==> body_of(output) == bytes@,
        output matches PdsOutput::Data(data) ==> body_of(output) == crate::json::json_rendered(
            crate::json::json_normal(data@),
        ),
{
}

} // verus!
