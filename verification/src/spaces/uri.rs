//! Addresses of spaces and of the records in them.
use vstd::prelude::*;

use crate::error::AppError;
use crate::text::{split, strip_prefix};

verus! {

/// A parsed `at://` URI for addressing permissioned data.
///
/// Full form: `at://<space-did>/space/<space-type-nsid>/<skey>/<user-did>/<collection-nsid>/<rkey>`
/// Space-only form: `at://<space-did>/space/<space-type-nsid>/<skey>`
#[derive(Debug, Clone, PartialEq, Eq, Hash)]
pub struct SpaceUri {
    pub did: String,
    pub type_nsid: String,
    pub skey: String,
    pub user_did: Option<String>,
    pub collection: Option<String>,
    pub rkey: Option<String>,
}

/// What a [`SpaceUri`] addresses.
#[verifier::ext_equal]
pub struct SpaceUriView {
    pub did: Seq<char>,
    pub type_nsid: Seq<char>,
    pub skey: Seq<char>,
    pub user_did: Option<Seq<char>>,
    pub collection: Option<Seq<char>>,
    pub rkey: Option<Seq<char>>,
}

impl View for SpaceUri {
    type V = SpaceUriView;

    open spec fn view(&self) -> SpaceUriView {
        SpaceUriView {
            did: self.did@,
            type_nsid: self.type_nsid@,
            skey: self.skey@,
            user_did: crate::text::opt_text(self.user_did),
            collection: crate::text::opt_text(self.collection),
            rkey: crate::text::opt_text(self.rkey),
        }
    }
}

/// The text that addresses a space.
pub open spec fn space_text(did: Seq<char>, type_nsid: Seq<char>, skey: Seq<char>) -> Seq<char> {
    "at://"@ + did + "/space/"@ + type_nsid + "/"@ + skey
}

/// The text that addresses a record of a space.
pub open spec fn record_text(
    space: Seq<char>,
    author: Seq<char>,
    collection: Seq<char>,
    rkey: Seq<char>,
) -> Seq<char> {
    space + "/"@ + author + "/"@ + collection + "/"@ + rkey
}

/// A path segment: not empty, and without a slash.
pub open spec fn is_segment(text: Seq<char>) -> bool {
    text.len() > 0 && !text.contains('/')
}

impl SpaceUriView {
    /// The text of this address.
    pub open spec fn text(self) -> Seq<char> {
        let space = space_text(self.did, self.type_nsid, self.skey);
        match (self.user_did, self.collection, self.rkey) {
            (Some(user), Some(collection), Some(rkey)) => record_text(space, user, collection, rkey),
            _ => space,
        }
    }

    /// Whether this addresses something: all parts are path segments, and the
    /// parts that address a record stand together or not at all.
    pub open spec fn well_formed(self) -> bool {
        &&& is_segment(self.did)
        &&& is_segment(self.type_nsid)
        &&& is_segment(self.skey)
        &&& match (self.user_did, self.collection, self.rkey) {
            (Some(user), Some(collection), Some(rkey)) => is_segment(user) && is_segment(collection)
                && is_segment(rkey),
            (None, None, None) => true,
            _ => false,
        }
    }
}

/// The path segments of an address. The older `ats://` form leaves out the
/// `space` segment.
pub open spec fn segments_of(uri: Seq<char>) -> Result<Seq<Seq<char>>, crate::error::ErrorView> {
    match crate::text::after_prefix(uri, "ats://"@) {
        Some(rest) => {
            let parts = crate::text::split_on(rest, '/');
            if parts.len() >= 3 {
                Ok(seq![parts[0], "space"@] + parts.skip(1))
            } else {
                Err(
                    crate::error::ErrorView::BadRequest(
                        "ats:// URI requires at least did/type/skey"@,
                    ),
                )
            }
        },
        None => match crate::text::after_prefix(uri, "at://"@) {
            Some(rest) => Ok(crate::text::split_on(rest, '/')),
            None => Err(crate::error::ErrorView::BadRequest("SpaceUri must start with at://"@)),
        },
    }
}

/// What a sequence of path segments addresses.
pub open spec fn address_of(parts: Seq<Seq<char>>) -> Result<SpaceUriView, crate::error::ErrorView> {
    if parts.len() < 4 {
        Err(
            crate::error::ErrorView::BadRequest(
                "SpaceUri requires at least did/space/type_nsid/skey"@,
            ),
        )
    } else if parts[1] != "space"@ {
        Err(
            crate::error::ErrorView::BadRequest(
                "SpaceUri must have 'space' as the second path segment"@,
            ),
        )
    } else if parts[0].len() == 0 || parts[2].len() == 0 || parts[3].len() == 0 {
        Err(crate::error::ErrorView::BadRequest("SpaceUri components must not be empty"@))
    } else if parts.len() == 7 {
        if parts[4].len() == 0 || parts[5].len() == 0 || parts[6].len() == 0 {
            Err(crate::error::ErrorView::BadRequest("SpaceUri record components must not be empty"@))
        } else {
            Ok(
                SpaceUriView {
                    did: parts[0],
                    type_nsid: parts[2],
                    skey: parts[3],
                    user_did: Some(parts[4]),
                    collection: Some(parts[5]),
                    rkey: Some(parts[6]),
                },
            )
        }
    } else if parts.len() == 4 {
        Ok(
            SpaceUriView {
                did: parts[0],
                type_nsid: parts[2],
                skey: parts[3],
                user_did: None,
                collection: None,
                rkey: None,
            },
        )
    } else {
        Err(
            crate::error::ErrorView::BadRequest(
                "SpaceUri must have 4 components (space) or 7 components (record)"@,
            ),
        )
    }
}

/// What a text addresses.
pub open spec fn parsed_uri(uri: Seq<char>) -> Result<SpaceUriView, crate::error::ErrorView> {
    match segments_of(uri) {
        Ok(parts) => address_of(parts),
        Err(error) => Err(error),
    }
}

impl SpaceUri {
    /// Reads an address, in the `at://` or the older `ats://` form.
    pub fn parse(uri: &str) -> (result: Result<SpaceUri, AppError>)
        ensures
            crate::error::outcome(result) == parsed_uri(uri@),
    {
        let parts: Vec<String> = match strip_prefix(uri, "ats://") {
            Some(rest) => {
                let mut parts = split(rest, '/');
                let ghost short = crate::text::texts(parts@);
                if parts.len() < 3 {
                    return Err(
                        AppError::BadRequest("ats:// URI requires at least did/type/skey".to_owned()),
                    );
                }
                parts.insert(1, "space".to_owned());
                assert(crate::text::texts(parts@) =~= seq![short[0], "space"@] + short.skip(1));
                parts
            },
            None => match strip_prefix(uri, "at://") {
                Some(rest) => split(rest, '/'),
                None => {
                    return Err(AppError::BadRequest("SpaceUri must start with at://".to_owned()));
                },
            },
        };
        let ghost segments = crate::text::texts(parts@);
        assert(segments_of(uri@) == Ok::<Seq<Seq<char>>, crate::error::ErrorView>(segments));
        assert(forall|i: int| 0 <= i < parts@.len() ==> (#[trigger] parts@[i])@ == segments[i]);

        if parts.len() < 4 {
            return Err(
                AppError::BadRequest(
                    "SpaceUri requires at least did/space/type_nsid/skey".to_owned(),
                ),
            );
        }
        if !crate::text::same_text(parts[1].as_str(), "space") {
            return Err(
                AppError::BadRequest(
                    "SpaceUri must have 'space' as the second path segment".to_owned(),
                ),
            );
        }
        if parts[0].as_str().unicode_len() == 0 || parts[2].as_str().unicode_len() == 0
            || parts[3].as_str().unicode_len() == 0 {
            return Err(AppError::BadRequest("SpaceUri components must not be empty".to_owned()));
        }
        let (user_did, collection, rkey) = if parts.len() == 7 {
            if parts[4].as_str().unicode_len() == 0 || parts[5].as_str().unicode_len() == 0
                || parts[6].as_str().unicode_len() == 0 {
                return Err(
                    AppError::BadRequest("SpaceUri record components must not be empty".to_owned()),
                );
            }
            (Some(parts[4].clone()), Some(parts[5].clone()), Some(parts[6].clone()))
        } else if parts.len() == 4 {
            (None, None, None)
        } else {
            return Err(
                AppError::BadRequest(
                    "SpaceUri must have 4 components (space) or 7 components (record)".to_owned(),
                ),
            );
        };
        Ok(
            SpaceUri {
                did: parts[0].clone(),
                type_nsid: parts[2].clone(),
                skey: parts[3].clone(),
                user_did,
                collection,
                rkey,
            },
        )
    }

    /// The address of the space alone.
    pub fn space_uri(&self) -> (text: String)
        ensures
            text@ == space_text(self@.did, self@.type_nsid, self@.skey),
    {
        space_uri_text(self.did.as_str(), self.type_nsid.as_str(), self.skey.as_str())
    }

    /// Whether this addresses a record.
    pub fn is_record_uri(&self) -> (yes: bool)
        ensures
            yes == (self@.user_did is Some),
    {
        self.user_did.is_some()
    }

    /// Whether this addresses a whole space.
    pub fn is_space_uri(&self) -> (yes: bool)
        ensures
            yes == (self@.user_did is None),
    {
        self.user_did.is_none()
    }

    /// The text of this address.
    pub fn to_string(&self) -> (text: String)
        ensures
            text@ == self@.text(),
    {
        let space = self.space_uri();
        match (&self.user_did, &self.collection, &self.rkey) {
            (Some(user), Some(collection), Some(rkey)) => record_uri_text(
                space.as_str(),
                user.as_str(),
                collection.as_str(),
                rkey.as_str(),
            ),
            _ => space,
        }
    }
}

/// The text that addresses a space.
pub fn space_uri_text(did: &str, type_nsid: &str, skey: &str) -> (text: String)
    ensures
        text@ == space_text(did@, type_nsid@, skey@),
{
    let mut text = crate::text::cat4("at://", did, "/space/", type_nsid);
    text.append("/");
    text.append(skey);
    text
}

/// The text that addresses a record of a space.
pub fn record_uri_text(space: &str, author: &str, collection: &str, rkey: &str) -> (text: String)
    ensures
        text@ == record_text(space@, author@, collection@, rkey@),
{
    let mut text = crate::text::cat4(space, "/", author, "/");
    text.append(collection);
    text.append("/");
    text.append(rkey);
    text
}

/// An address has at most the two schemes, and never both.
proof fn lemma_schemes(rest: Seq<char>)
    ensures
        crate::text::after_prefix("at://"@ + rest, "ats://"@) is None,
        crate::text::after_prefix("at://"@ + rest, "at://"@) == Some(rest),
        crate::text::after_prefix("ats://"@ + rest, "ats://"@) == Some(rest),
{
    reveal_strlit("at://");
    reveal_strlit("ats://");
    let at = "at://"@ + rest;
    let ats = "ats://"@ + rest;
    assert(at[2] == ':');
    if crate::text::has_prefix(at, "ats://"@) {
        assert(at.take(6)[2] == 's');
        assert(at.take(6)[2] == at[2]);
        assert(false);
    }
    assert(at.take(5) =~= "at://"@);
    assert(at.skip(5) =~= rest);
    assert(ats.take(6) =~= "ats://"@);
    assert(ats.skip(6) =~= rest);
}

/// The segments of a space's text.
pub open spec fn space_segments(uri: SpaceUriView) -> Seq<Seq<char>> {
    seq![uri.did, "space"@, uri.type_nsid, uri.skey]
}

/// The segments of a record's text.
pub open spec fn record_segments(uri: SpaceUriView) -> Seq<Seq<char>> {
    space_segments(uri) + seq![uri.user_did->0, uri.collection->0, uri.rkey->0]
}

proof fn lemma_text_is_joined(uri: SpaceUriView)
    ensures
        space_text(uri.did, uri.type_nsid, uri.skey) == "at://"@ + crate::text::join_with(
            space_segments(uri),
            '/',
        ),
        record_text(
            space_text(uri.did, uri.type_nsid, uri.skey),
            uri.user_did->0,
            uri.collection->0,
            uri.rkey->0,
        ) == "at://"@ + crate::text::join_with(record_segments(uri), '/'),
{
    reveal_with_fuel(crate::text::join_with, 8);
    reveal_strlit("/space/");
    reveal_strlit("space");
    reveal_strlit("/");
    let four = space_segments(uri);
    let seven = record_segments(uri);
    let one = seq!['/'];
    assert("/"@ =~= one);
    assert("/space/"@ =~= one + "space"@ + one);
    assert(four.drop_last() =~= seq![uri.did, "space"@, uri.type_nsid]);
    assert(four.drop_last().drop_last() =~= seq![uri.did, "space"@]);
    assert(four.drop_last().drop_last().drop_last() =~= seq![uri.did]);
    let joined4 = crate::text::join_with(four, '/');
    assert(joined4 =~= uri.did + one + "space"@ + one + uri.type_nsid + one + uri.skey);
    assert(space_text(uri.did, uri.type_nsid, uri.skey) =~= "at://"@ + joined4);
    assert(seven.drop_last().drop_last().drop_last() =~= four);
    assert(seven.drop_last().drop_last().last() == uri.user_did->0);
    assert(seven.drop_last().last() == uri.collection->0);
    assert(seven.last() == uri.rkey->0);
    let joined7 = crate::text::join_with(seven, '/');
    assert(joined7 =~= joined4 + one + uri.user_did->0 + one + uri.collection->0 + one + uri.rkey->0);
    assert(record_text(
        space_text(uri.did, uri.type_nsid, uri.skey),
        uri.user_did->0,
        uri.collection->0,
        uri.rkey->0,
    ) =~= "at://"@ + joined7);
}

/// Reading the text of an address gives the address back.
pub proof fn law_parse_of_text(uri: SpaceUriView)
    requires
        uri.well_formed(),
    ensures
        parsed_uri(uri.text()) == Ok::<SpaceUriView, crate::error::ErrorView>(uri),
{
    reveal_strlit("space");
    lemma_text_is_joined(uri);
    let parts = if uri.user_did is Some {
        record_segments(uri)
    } else {
        space_segments(uri)
    };
    assert forall|i: int| 0 <= i < parts.len() implies !(#[trigger] parts[i]).contains('/') by {
        if i == 1 {
            assert(parts[1] =~= "space"@);
        }
    }
    let joined = crate::text::join_with(parts, '/');
    crate::text::lemma_split_join(parts, '/');
    lemma_schemes(joined);
    assert(uri.text() == "at://"@ + joined);
    assert(segments_of(uri.text()) == Ok::<Seq<Seq<char>>, crate::error::ErrorView>(parts));
    if uri.user_did is Some {
        assert(parts[4] == uri.user_did->0 && parts[5] == uri.collection->0 && parts[6] == uri.rkey->0);
    }
    assert(address_of(parts)->Ok_0 =~= uri);
}

/// Two addresses with the same text are the same address.
pub proof fn law_addresses_are_told_apart(a: SpaceUriView, b: SpaceUriView)
    requires
        a.well_formed(),
        b.well_formed(),
        a.text() == b.text(),
    ensures
        a == b,
{
    law_parse_of_text(a);
    law_parse_of_text(b);
}

/// What is read is well formed, and writing it gives the text that was read,
/// if that was in the `at://` form.
pub proof fn law_text_of_parse(text: Seq<char>)
    ensures
        parsed_uri(text) matches Ok(uri) ==> uri.well_formed() && (crate::text::has_prefix(
            text,
            "at://"@,
        ) ==> uri.text() == text),
{
    if parsed_uri(text) is Ok {
        let uri = parsed_uri(text)->Ok_0;
        let parts = segments_of(text)->Ok_0;
        reveal_strlit("space");
        match crate::text::after_prefix(text, "ats://"@) {
            Some(rest) => {
                let short = crate::text::split_on(rest, '/');
                crate::text::lemma_split_parts(rest, '/');
                assert forall|i: int| 0 <= i < parts.len() implies !(#[trigger] parts[i]).contains('/') by {
                    if i == 0 {
                        assert(parts[0] == short[0]);
                    } else if i >= 2 {
                        assert(parts[i] == short[i - 1]);
                    }
                }
                if crate::text::has_prefix(text, "at://"@) {
                    let tail = text.skip(5);
                    reveal_strlit("at://");
                    assert(text =~= "at://"@ + tail);
                    lemma_schemes(tail);
                }
            },
            None => {
                let rest = text.skip("at://"@.len() as int);
                crate::text::lemma_split_parts(rest, '/');
                crate::text::lemma_join_split(rest, '/');
                assert(text =~= "at://"@ + rest);
                lemma_text_is_joined(uri);
                if uri.user_did is Some {
                    assert(parts =~= record_segments(uri));
                } else {
                    assert(parts =~= space_segments(uri));
                }
            },
        }
        assert(is_segment(parts[0]) && is_segment(parts[2]) && is_segment(parts[3]));
    }
}

proof fn lemma_join_front(first: Seq<char>, parts: Seq<Seq<char>>)
    requires
        parts.len() >= 1,
    ensures
        crate::text::join_with(seq![first] + parts, '/') == first + seq!['/'] + crate::text::join_with(
            parts,
            '/',
        ),
    decreases parts.len(),
{
    let all = seq![first] + parts;
    assert(all.drop_last() =~= seq![first] + parts.drop_last());
    assert(all.last() == parts.last());
    let head = crate::text::join_with(all.drop_last(), '/');
    assert(crate::text::join_with(all, '/') == head + seq!['/'] + parts.last());
    if parts.len() == 1 {
        assert(all.drop_last() =~= seq![first]);
        assert(head == first);
        assert(crate::text::join_with(parts, '/') == parts.last());
    } else {
        lemma_join_front(first, parts.drop_last());
        let tail = crate::text::join_with(parts.drop_last(), '/');
        assert(head == first + seq!['/'] + tail);
        assert(crate::text::join_with(parts, '/') == tail + seq!['/'] + parts.last());
        assert(head + seq!['/'] + parts.last() =~= first + seq!['/'] + (tail + seq!['/'] + parts.last()));
    }
}

proof fn lemma_split_front(first: Seq<char>, rest: Seq<char>)
    requires
        !first.contains('/'),
    ensures
        crate::text::split_on(first + seq!['/'] + rest, '/') == seq![first] + crate::text::split_on(
            rest,
            '/',
        ),
{
    let parts = crate::text::split_on(rest, '/');
    crate::text::lemma_split_parts(rest, '/');
    crate::text::lemma_join_split(rest, '/');
    lemma_join_front(first, parts);
    let all = seq![first] + parts;
    assert forall|i: int| 0 <= i < all.len() implies !(#[trigger] all[i]).contains('/') by {
        if i > 0 {
            assert(all[i] == parts[i - 1]);
        }
    }
    crate::text::lemma_split_join(all, '/');
}

/// The older form of an address says what the form with `space` says, whatever
/// path stands behind the DID. Where the path has one segment only, neither form
/// is an address.
pub proof fn law_legacy_form(did: Seq<char>, rest: Seq<char>)
    requires
        !did.contains('/'),
    ensures
        rest.contains('/') ==> parsed_uri("ats://"@ + did + "/"@ + rest) == parsed_uri(
            "at://"@ + did + "/space/"@ + rest,
        ),
        !rest.contains('/') ==> parsed_uri("ats://"@ + did + "/"@ + rest) is Err && parsed_uri(
            "at://"@ + did + "/space/"@ + rest,
        ) is Err,
{
    reveal_strlit("/");
    reveal_strlit("/space/");
    reveal_strlit("space");
    let old = did + seq!['/'] + rest;
    let new = did + seq!['/'] + ("space"@ + seq!['/'] + rest);
    assert("ats://"@ + did + "/"@ + rest =~= "ats://"@ + old);
    assert("at://"@ + did + "/space/"@ + rest =~= "at://"@ + new);
    lemma_schemes(old);
    lemma_schemes(new);
    lemma_split_front(did, rest);
    lemma_split_front("space"@, rest);
    lemma_split_front(did, "space"@ + seq!['/'] + rest);
    let parts = crate::text::split_on(rest, '/');
    assert(parts.len() >= 2 <==> rest.contains('/')) by {
        crate::text::lemma_split_parts(rest, '/');
        crate::text::lemma_join_split(rest, '/');
        if parts.len() == 1 {
            assert(parts[0] == rest);
        } else if !rest.contains('/') {
            crate::text::lemma_split_join(seq![rest], '/');
        }
    }
    let short = seq![did] + parts;
    assert(short.skip(1) =~= parts);
    assert(seq![short[0], "space"@] + short.skip(1) =~= seq![did] + (seq!["space"@] + parts));
}

} // verus!
