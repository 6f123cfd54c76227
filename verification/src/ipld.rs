//! Content-addressed data: varints, CIDs and CBOR.
use vstd::prelude::*;

use crate::crypto;
use crate::json::{Json, JsonView};
use crate::order;
use crate::text;

verus! {

/// The multicodec of DAG-CBOR.
pub const DAG_CBOR: u64 = 0x71;

/// The code of SHA-256 in a CID.
pub const SHA2_256: u64 = 0x12;

/// A number in base 128, least significant digit first, with the top bit set on
/// all digits but the last.
pub open spec fn varint_of(n: nat) -> Seq<u8>
    decreases n,
{
    if n < 128 {
        seq![n as u8]
    } else {
        seq![(n % 128 + 128) as u8] + varint_of(n / 128)
    }
}

/// The number at the start of bytes, and the bytes behind it.
pub open spec fn varint_read(bytes: Seq<u8>) -> Option<(nat, Seq<u8>)>
    decreases bytes.len(),
{
    if bytes.len() == 0 {
        None
    } else if bytes[0] < 128 {
        Some((bytes[0] as nat, bytes.skip(1)))
    } else {
        match varint_read(bytes.skip(1)) {
            Some((n, rest)) => Some(((bytes[0] - 128) as nat + 128 * n, rest)),
            None => None,
        }
    }
}

/// A number that was written reads back, and nothing behind it is touched.
pub proof fn law_varint_reads_back(n: nat, rest: Seq<u8>)
    ensures
        varint_read(varint_of(n) + rest) == Some((n, rest)),
        varint_of(n).len() >= 1,
    decreases n,
{
    let bytes = varint_of(n) + rest;
    if n < 128 {
        assert(bytes.skip(1) =~= rest);
    } else {
        law_varint_reads_back(n / 128, rest);
        assert(bytes.skip(1) =~= varint_of(n / 128) + rest);
    }
}

/// Writes a number as a varint.
pub fn unsigned_varint(value: u64) -> (bytes: Vec<u8>)
    ensures
        bytes@ == varint_of(value as nat),
{
    let mut bytes: Vec<u8> = Vec::new();
    let mut rest: u64 = value;
    while rest >= 128
        invariant
            bytes@ + varint_of(rest as nat) == varint_of(value as nat),
        decreases rest,
    {
        let ghost before = bytes@;
        let ghost from = rest as nat;
        bytes.push((rest % 128 + 128) as u8);
        rest = rest / 128;
        assert(bytes@ + varint_of(rest as nat) =~= before + varint_of(from));
    }
    let ghost before = bytes@;
    bytes.push(rest as u8);
    assert(bytes@ =~= before + varint_of(rest as nat));
    bytes
}

/// The bytes of the version 1 CID of a block: version, codec, the code and
/// length of SHA-256, and the block's digest.
pub open spec fn cid_bytes(codec: u64, block: Seq<u8>) -> Seq<u8> {
    varint_of(1) + varint_of(codec as nat) + seq![SHA2_256 as u8, 32u8] + crypto::sha256_of(block)
}

/// The text of the version 1 CID of a codec, the code of a hash, and a digest of
/// that hash.
pub uninterp spec fn cid_text_of(codec: u64, hash_code: u64, digest: Seq<u8>) -> Seq<char>;

/// The bytes of the CID that a text is, if it is one.
pub uninterp spec fn cid_parsed(text: Seq<char>) -> Option<Seq<u8>>;

/// The bytes of a version 1 CID of a digest, with
/// `cid::multihash::Multihash::wrap`, `cid::Cid::new_v1` and `to_bytes`. A
/// digest of 32 bytes always fits.
///
/// Trusted: version, codec, the hash's code, the digest's length, and the digest.
#[verifier::external_body]
fn cid_v1(codec: u64, hash_code: u64, digest: &[u8; 32]) -> (bytes: Vec<u8>)
    ensures
        bytes@ == varint_of(1) + varint_of(codec as nat) + varint_of(hash_code as nat) + varint_of(32)
            + digest@,
{
    let hash = cid::multihash::Multihash::<64>::wrap(hash_code, digest).expect("the digest fits");
    cid::Cid::new_v1(codec, hash).to_bytes()
}

/// The text of a version 1 CID of a digest, with `cid::Cid::new_v1` and
/// `to_string`.
///
/// Trusted: it is a function of the codec, the hash's code and the digest.
#[verifier::external_body]
fn cid_v1_text(codec: u64, hash_code: u64, digest: &[u8; 32]) -> (text: String)
    ensures
        text@ == cid_text_of(codec, hash_code, digest@),
{
    let hash = cid::multihash::Multihash::<64>::wrap(hash_code, digest).expect("the digest fits");
    cid::Cid::new_v1(codec, hash).to_string()
}

/// Reads a CID, with `cid::Cid::try_from`.
///
/// Trusted: the bytes are a function of the text.
#[verifier::external_body]
fn cid_of_text(text: &str) -> (bytes: Option<Vec<u8>>)
    ensures
        crypto::opt_bytes(bytes) == cid_parsed(text@),
{
    cid::Cid::try_from(text).ok().map(|c| c.to_bytes())
}

/// The bytes of the CID of a block.
pub fn make_cid(codec: u64, block: &[u8]) -> (cid: Vec<u8>)
    ensures
        cid@ == cid_bytes(codec, block@),
        crypto::sha256_of(block@).len() == 32 && (codec < 128 ==> cid@.len() == 36),
{
    let digest = crypto::sha256(block);
    let cid = cid_v1(codec, SHA2_256, &digest);
    assert(varint_of(0x12) =~= seq![0x12u8]);
    assert(varint_of(32) =~= seq![0x20u8]);
    assert(cid@ =~= cid_bytes(codec, block@));
    cid
}

/// The text of the CID of a block.
pub fn make_cid_text(codec: u64, block: &[u8]) -> (cid: String)
    ensures
        cid@ == cid_text_of(codec, SHA2_256, crypto::sha256_of(block@)),
{
    let digest = crypto::sha256(block);
    cid_v1_text(codec, SHA2_256, &digest)
}

/// A CBOR value, of the kinds that an archive's own blocks are made of.
pub enum Cbor {
    Unsigned(u64),
    Bytes(Vec<u8>),
    Text(String),
    /// Bytes under a tag.
    Tagged(u64, Vec<u8>),
    List(Vec<Cbor>),
    Table(Vec<(String, Cbor)>),
}

/// What a [`Cbor`] value is.
#[verifier::ext_equal]
pub enum CborView {
    Unsigned(u64),
    Bytes(Seq<u8>),
    Text(Seq<char>),
    Tagged(u64, Seq<u8>),
    List(Seq<CborView>),
    Table(Seq<(Seq<char>, CborView)>),
}

impl View for Cbor {
    type V = CborView;

    open spec fn view(&self) -> CborView
        decreases self,
    {
        match self {
            Cbor::Unsigned(n) => CborView::Unsigned(*n),
            Cbor::Bytes(b) => CborView::Bytes(b@),
            Cbor::Text(t) => CborView::Text(t@),
            Cbor::Tagged(tag, b) => CborView::Tagged(*tag, b@),
            Cbor::List(items) => CborView::List(
                Seq::new(
                    items@.len(),
                    |i: int|
                        if 0 <= i < items@.len() {
                            items@[i].view()
                        } else {
                            CborView::Unsigned(0)
                        },
                ),
            ),
            Cbor::Table(members) => CborView::Table(
                Seq::new(
                    members@.len(),
                    |i: int|
                        if 0 <= i < members@.len() {
                            (members@[i].0@, members@[i].1.view())
                        } else {
                            (Seq::empty(), CborView::Unsigned(0))
                        },
                ),
            ),
        }
    }
}

/// What a list of values, and a map of members, are.
pub proof fn lemma_cbor_views(value: Cbor)
    ensures
        value matches Cbor::List(items) ==> value@ == CborView::List(
            Seq::new(items@.len(), |i: int| items@[i]@),
        ),
        value matches Cbor::Table(members) ==> value@ == CborView::Table(
            Seq::new(members@.len(), |i: int| (members@[i].0@, members@[i].1@)),
        ),
{
    reveal_with_fuel(<Cbor as View>::view, 2);
    match value {
        Cbor::List(items) => {
            assert(value@->List_0 =~= Seq::new(items@.len(), |i: int| items@[i]@));
        },
        Cbor::Table(members) => {
            assert(value@->Table_0 =~= Seq::new(
                members@.len(),
                |i: int| (members@[i].0@, members@[i].1@),
            ));
        },
        _ => {},
    }
}

/// The `ciborium` representation of a CBOR value.
#[verifier::external_type_specification]
#[verifier::external_body]
pub struct ExCborValue(ciborium::Value);

/// What a `ciborium::Value` holds.
pub uninterp spec fn cbor_tree(value: ciborium::Value) -> CborView;

/// The bytes that `ciborium::into_writer` writes for a value.
pub uninterp spec fn cbor_rendered(value: CborView) -> Seq<u8>;

/// Makes a `ciborium::Value`, variant by variant.
///
/// Trusted: the value holds what it was made of.
#[verifier::external_body]
fn cbor_value(cbor: &Cbor) -> (value: ciborium::Value)
    ensures
        cbor_tree(value) == cbor@,
{
    match cbor {
        Cbor::Unsigned(n) => ciborium::Value::Integer((*n).into()),
        Cbor::Bytes(b) => ciborium::Value::Bytes(b.clone()),
        Cbor::Text(t) => ciborium::Value::Text(t.clone()),
        Cbor::Tagged(tag, b) => ciborium::Value::Tag(*tag, Box::new(ciborium::Value::Bytes(b.clone()))),
        Cbor::List(items) => ciborium::Value::Array(items.iter().map(cbor_value).collect()),
        Cbor::Table(members) => ciborium::Value::Map(members.iter().map(|(k, v)| (ciborium::Value::Text(k.clone()), cbor_value(v))).collect()),
    }
}

/// Writes CBOR, with `ciborium::into_writer`, which does not fail on a vector.
///
/// Trusted: the bytes are a function of what the value holds.
#[verifier::external_body]
fn cbor_to_vec(value: &ciborium::Value) -> (bytes: Vec<u8>)
    ensures
        bytes@ == cbor_rendered(cbor_tree(*value)),
{
    let mut bytes: Vec<u8> = Vec::new();
    ciborium::into_writer(value, &mut bytes).expect("a vector takes every write");
    bytes
}

/// A link to a block: the tag of a CID on the CID's bytes, behind the multibase
/// prefix for bytes as they are.
pub open spec fn link_view(cid: Seq<u8>) -> CborView {
    CborView::Tagged(42, seq![0u8] + cid)
}

/// A link to a block, by the bytes of its CID.
pub fn cid_link(cid: &[u8]) -> (link: Cbor)
    ensures
        link@ == link_view(cid@),
{
    let mut bytes: Vec<u8> = vec![0u8];
    bytes.extend_from_slice(cid);
    assert(bytes@ =~= seq![0u8] + cid@);
    Cbor::Tagged(42, bytes)
}

/// Writes CBOR.
pub fn encode_cbor(cbor: &Cbor) -> (bytes: Vec<u8>)
    ensures
        bytes@ == cbor_rendered(cbor@),
{
    let value = cbor_value(cbor);
    cbor_to_vec(&value)
}

/// A number in big-endian bytes, of which there are `width`.
pub open spec fn big_endian(n: nat, width: nat) -> Seq<u8>
    decreases width,
{
    if width == 0 {
        Seq::empty()
    } else {
        big_endian(n / 256, (width - 1) as nat).push((n % 256) as u8)
    }
}

/// The head of a CBOR item: its major type, and its argument in the fewest
/// bytes.
pub open spec fn cbor_head(major: u8, n: nat) -> Seq<u8> {
    let top = (major * 32) as int;
    if n < 24 {
        seq![(top + n) as u8]
    } else if n < 0x100 {
        seq![(top + 24) as u8] + big_endian(n, 1)
    } else if n < 0x10000 {
        seq![(top + 25) as u8] + big_endian(n, 2)
    } else if n < 0x1_0000_0000 {
        seq![(top + 26) as u8] + big_endian(n, 4)
    } else {
        seq![(top + 27) as u8] + big_endian(n, 8)
    }
}

fn push_big_endian(out: &mut Vec<u8>, n: u64, width: usize)
    ensures
        final(out)@ == old(out)@ + big_endian(n as nat, width as nat),
    decreases width,
{
    let ghost before = out@;
    if width > 0 {
        push_big_endian(out, n / 256, width - 1);
        out.push((n % 256) as u8);
        assert(out@ =~= before + big_endian(n as nat, width as nat));
    } else {
        assert(before + big_endian(n as nat, 0) =~= before);
    }
}

fn push_head(out: &mut Vec<u8>, major: u8, n: u64)
    requires
        major < 8,
    ensures
        final(out)@ == old(out)@ + cbor_head(major, n as nat),
{
    let ghost before = out@;
    let top: u8 = major * 32;
    if n < 24 {
        out.push(top + n as u8);
    } else if n < 0x100 {
        out.push(top + 24);
        push_big_endian(out, n, 1);
    } else if n < 0x10000 {
        out.push(top + 25);
        push_big_endian(out, n, 2);
    } else if n < 0x1_0000_0000 {
        out.push(top + 26);
        push_big_endian(out, n, 4);
    } else {
        out.push(top + 27);
        push_big_endian(out, n, 8);
    }
    assert(out@ =~= before + cbor_head(major, n as nat));
}

/// A byte string.
pub open spec fn dag_bytes(bytes: Seq<u8>) -> Seq<u8> {
    cbor_head(2, bytes.len()) + bytes
}

/// A text.
pub open spec fn dag_text(text: Seq<char>) -> Seq<u8> {
    cbor_head(3, vstd::utf8::encode_utf8(text).len()) + vstd::utf8::encode_utf8(text)
}

/// A link to the block with a CID: the tag 42 on the CID's bytes behind the
/// multibase identity prefix.
pub open spec fn dag_link(cid: Seq<u8>) -> Seq<u8> {
    seq![0xd8u8, 0x2au8] + dag_bytes(seq![0u8] + cid)
}

/// Whether the bits are those of a finite number: its exponent is not all ones.
pub open spec fn is_finite(bits: u64) -> bool {
    (bits as nat / 0x10_0000_0000_0000) % 0x800 != 0x7ff
}

/// A floating-point number, always in its widest form.
pub open spec fn dag_float(text: Seq<char>) -> Option<Seq<u8>> {
    match crate::json::float_bits_of(text) {
        Some(bits) => if is_finite(bits) {
            Some(seq![0xfbu8] + big_endian(bits as nat, 8))
        } else {
            None
        },
        None => None,
    }
}

/// The first `n` of some pieces, one behind the other.
pub open spec fn joined(pieces: Seq<Seq<u8>>, n: nat) -> Seq<u8>
    decreases n,
{
    if n == 0 {
        Seq::empty()
    } else {
        joined(pieces, (n - 1) as nat) + pieces[n - 1]
    }
}

/// All of some pieces, one behind the other.
pub open spec fn concat(pieces: Seq<Seq<u8>>) -> Seq<u8> {
    joined(pieces, pieces.len())
}

/// Whether all of some encodings exist.
pub open spec fn all_encode(pieces: Seq<Option<Seq<u8>>>) -> bool {
    forall|i: int| 0 <= i < pieces.len() ==> (#[trigger] pieces[i]) is Some
}

/// The encodings that exist.
pub open spec fn encodings(pieces: Seq<Option<Seq<u8>>>) -> Seq<Seq<u8>> {
    pieces.map_values(|p: Option<Seq<u8>>| p->0)
}

/// A list of items.
pub open spec fn dag_list(items: Seq<Option<Seq<u8>>>) -> Option<Seq<u8>> {
    if all_encode(items) {
        Some(cbor_head(4, items.len()) + concat(encodings(items)))
    } else {
        None
    }
}

/// The encodings of an object's keys.
pub open spec fn dag_keys(keys: Seq<Seq<char>>) -> Seq<Seq<u8>> {
    keys.map_values(|k: Seq<char>| dag_text(k))
}

/// The entries of an object, in the order of the encodings of their keys.
pub open spec fn dag_entries(keys: Seq<Seq<char>>, values: Seq<Seq<u8>>) -> Seq<Seq<u8>> {
    let order = order::sorted_order(dag_keys(keys));
    Seq::new(order.len(), |i: int| dag_keys(keys)[order[i]] + values[order[i]])
}

/// An object: its entries stand in the order of the encodings of their keys,
/// shorter keys first.
pub open spec fn dag_object(keys: Seq<Seq<char>>, values: Seq<Option<Seq<u8>>>) -> Option<Seq<u8>> {
    if all_encode(values) {
        Some(cbor_head(5, keys.len()) + concat(dag_entries(keys, encodings(values))))
    } else {
        None
    }
}

/// The keys of an object.
pub open spec fn keys_of(members: Seq<(Seq<char>, JsonView)>) -> Seq<Seq<char>> {
    Seq::new(members.len(), |i: int| members[i].0)
}

/// Whether an object is a lone `$link` or `$bytes`, which stands for a link or
/// for bytes.
pub open spec fn is_lone(members: Seq<(Seq<char>, JsonView)>, key: Seq<char>) -> bool {
    members.len() == 1 && members[0].0 == key
}

/// The DAG-CBOR encoding of a JSON value, if it has one: a number that is not
/// finite has none, nor has a malformed `$link` or `$bytes`.
pub open spec fn dag_cbor(value: JsonView) -> Option<Seq<u8>>
    decreases value, 0nat,
{
    match value {
        JsonView::Null => Some(seq![0xf6u8]),
        JsonView::Bool(b) => Some(
            seq![
                if b {
                    0xf5u8
                } else {
                    0xf4u8
                },
            ],
        ),
        JsonView::Unsigned(n) => Some(cbor_head(0, n as nat)),
        JsonView::Negative(n) => if n < 0 {
            Some(cbor_head(1, (-1 - n) as nat))
        } else {
            Some(cbor_head(0, n as nat))
        },
        JsonView::Float(t) => dag_float(t),
        JsonView::Text(t) => Some(dag_text(t)),
        JsonView::List(items) => dag_list(dag_items(items, items.len())),
        JsonView::Object(members) => if is_lone(members, "$link"@) {
            match members[0].1.as_str() {
                Some(link) => match cid_parsed(link) {
                    Some(cid) => Some(dag_link(cid)),
                    None => None,
                },
                None => None,
            }
        } else if is_lone(members, "$bytes"@) {
            match members[0].1.as_str() {
                Some(raw) => match crypto::base64_bytes(text::trimmed_end(raw, '=')) {
                    Ok(bytes) => Some(dag_bytes(bytes)),
                    Err(_) => None,
                },
                None => None,
            }
        } else {
            dag_object(keys_of(members), dag_values(members, members.len()))
        },
    }
}

/// The encodings of the first `n` items of a list.
pub open spec fn dag_items(items: Seq<JsonView>, n: nat) -> Seq<Option<Seq<u8>>>
    decreases items, n,
{
    if n == 0 || n > items.len() {
        Seq::empty()
    } else {
        dag_items(items, (n - 1) as nat).push(dag_cbor(items[n - 1]))
    }
}

/// The encodings of the first `n` values of an object.
pub open spec fn dag_values(members: Seq<(Seq<char>, JsonView)>, n: nat) -> Seq<Option<Seq<u8>>>
    decreases members, n,
{
    if n == 0 || n > members.len() {
        Seq::empty()
    } else {
        dag_values(members, (n - 1) as nat).push(dag_cbor(members[n - 1].1))
    }
}

proof fn lemma_dag_items(items: Seq<JsonView>, n: nat)
    requires
        n <= items.len(),
    ensures
        dag_items(items, n).len() == n,
        forall|i: int| 0 <= i < n ==> #[trigger] dag_items(items, n)[i] == dag_cbor(items[i]),
    decreases n,
{
    if n > 0 {
        lemma_dag_items(items, (n - 1) as nat);
    }
}

proof fn lemma_dag_values(members: Seq<(Seq<char>, JsonView)>, n: nat)
    requires
        n <= members.len(),
    ensures
        dag_values(members, n).len() == n,
        forall|i: int| 0 <= i < n ==> #[trigger] dag_values(members, n)[i] == dag_cbor(members[i].1),
    decreases n,
{
    if n > 0 {
        lemma_dag_values(members, (n - 1) as nat);
    }
}

/// The encodings, one behind the other.
fn concat_pieces(pieces: &Vec<Vec<u8>>, out: &mut Vec<u8>)
    ensures
        final(out)@ == old(out)@ + concat(order::key_views(pieces@)),
{
    let ghost before = out@;
    let ghost views = order::key_views(pieces@);
    assert(before + joined(views, 0) =~= before);
    for i in 0..pieces.len()
        invariant
            views == order::key_views(pieces@),
            out@ == before + joined(views, i as nat),
    {
        out.extend_from_slice(pieces[i].as_slice());
        assert(views[i as int] == pieces@[i as int]@);
        assert(out@ =~= before + joined(views, (i + 1) as nat));
    }
}

fn push_bytes(out: &mut Vec<u8>, bytes: &[u8])
    ensures
        final(out)@ == old(out)@ + dag_bytes(bytes@),
{
    let ghost before = out@;
    push_head(out, 2, bytes.len() as u64);
    out.extend_from_slice(bytes);
    assert(out@ =~= before + dag_bytes(bytes@));
}

/// The encoding of a text.
fn encode_text(text: &str) -> (out: Vec<u8>)
    ensures
        out@ == dag_text(text@),
{
    let mut out: Vec<u8> = Vec::new();
    let bytes = text.as_bytes();
    push_head(&mut out, 3, bytes.len() as u64);
    out.extend_from_slice(bytes);
    assert(out@ =~= dag_text(text@));
    out
}

/// The encoding of an object, of its keys and the encodings of its values.
fn encode_object(keys: &Vec<Vec<u8>>, values: &Vec<Vec<u8>>, Ghost(names): Ghost<Seq<Seq<char>>>) -> (out: Vec<u8>)
    requires
        keys@.len() == values@.len(),
        order::key_views(keys@) == dag_keys(names),
    ensures
        out@ == cbor_head(5, names.len()) + concat(dag_entries(names, order::key_views(values@))),
{
    let mut out: Vec<u8> = Vec::new();
    assert(names.len() == dag_keys(names).len());
    push_head(&mut out, 5, keys.len() as u64);
    let ghost head = out@;
    assert(head =~= cbor_head(5, names.len()));
    let order = order::sort_order(keys);
    let ghost indices = order::index_views(order@);
    let ghost entries = dag_entries(names, order::key_views(values@));
    assert(head + joined(entries, 0) =~= head);
    for i in 0..order.len()
        invariant
            keys@.len() == values@.len(),
            order::key_views(keys@) == dag_keys(names),
            indices == order::index_views(order@),
            order::is_permutation(indices, keys@.len()),
            indices == order::sorted_order(dag_keys(names)),
            entries == dag_entries(names, order::key_views(values@)),
            out@ == head + joined(entries, i as nat),
    {
        let at: usize = order[i];
        assert(indices[i as int] == at as int);
        assert(order::key_views(keys@)[at as int] == keys@[at as int]@);
        assert(order::key_views(values@)[at as int] == values@[at as int]@);
        out.extend_from_slice(keys[at].as_slice());
        out.extend_from_slice(values[at].as_slice());
        assert(entries[i as int] == keys@[at as int]@ + values@[at as int]@);
        assert(out@ =~= head + joined(entries, (i + 1) as nat));
    }
    out
}

/// The DAG-CBOR encoding of a JSON value, if it has one.
pub fn record_to_dag_cbor(value: &Json) -> (out: Option<Vec<u8>>)
    ensures
        crypto::opt_bytes(out) == dag_cbor(value@),
    decreases value,
{
    proof {
        crate::json::lemma_json_views(*value);
        match value@ {
            JsonView::List(items) => lemma_dag_items(items, items.len()),
            JsonView::Object(members) => lemma_dag_values(members, members.len()),
            _ => {},
        }
    }
    let mut out: Vec<u8> = Vec::new();
    match value {
        Json::Null => {
            out.push(0xf6);
            assert(out@ =~= seq![0xf6u8]);
        },
        Json::Bool(b) => {
            if *b {
                out.push(0xf5);
            } else {
                out.push(0xf4);
            }
            assert(out@ =~= dag_cbor(value@)->0);
        },
        Json::Unsigned(n) => {
            push_head(&mut out, 0, *n);
            assert(out@ =~= cbor_head(0, *n as nat));
        },
        Json::Negative(n) => {
            if *n < 0 {
                push_head(&mut out, 1, (-1 - *n) as u64);
            } else {
                push_head(&mut out, 0, *n as u64);
            }
            assert(out@ =~= dag_cbor(value@)->0);
        },
        Json::Float(t) => {
            let bits = match crate::json::float_bits(t.as_str()) {
                Some(bits) => bits,
                None => {
                    return None;
                },
            };
            if (bits / 0x10_0000_0000_0000) % 0x800 == 0x7ff {
                return None;
            }
            out.push(0xfb);
            push_big_endian(&mut out, bits, 8);
            assert(out@ =~= seq![0xfbu8] + big_endian(bits as nat, 8));
        },
        Json::Text(t) => {
            out = encode_text(t.as_str());
        },
        Json::List(items) => {
            let ghost views = crate::json::json_views(items@);
            let ghost encoded = dag_items(views, views.len());
            let mut pieces: Vec<Vec<u8>> = Vec::new();
            for i in 0..items.len()
                invariant
                    *value == Json::List(*items),
                    views == crate::json::json_views(items@),
                    encoded.len() == views.len(),
                    forall|j: int| 0 <= j < views.len() ==> #[trigger] encoded[j] == dag_cbor(views[j]),
                    dag_cbor(value@) == dag_list(encoded),
                    pieces@.len() == i,
                    forall|j: int| 0 <= j < i ==> encoded[j] == Some((#[trigger] pieces@[j])@),
            {
                assert(decreases_to!(*value => value->List_0));
                assert(decreases_to!(*items => items[i as int]));
                match record_to_dag_cbor(&items[i]) {
                    Some(piece) => {
                        pieces.push(piece);
                    },
                    None => {
                        assert(encoded[i as int] is None);
                        return None;
                    },
                }
            }
            push_head(&mut out, 4, items.len() as u64);
            concat_pieces(&pieces, &mut out);
            proof {
                let all = encoded;
                assert forall|j: int| 0 <= j < all.len() implies (#[trigger] all[j]) is Some by {
                    assert(all[j] == Some(pieces@[j]@));
                }
                assert(order::key_views(pieces@) =~= encodings(all));
                assert(out@ =~= cbor_head(4, all.len()) + concat(encodings(all)));
            }
        },
        Json::Object(members) => {
            let ghost views = crate::json::member_views(members@);
            if members.len() == 1 && text::same_text(members[0].0.as_str(), "$link") {
                assert(is_lone(views, "$link"@));
                return match members[0].1.as_str() {
                    Some(link) => match cid_of_text(link) {
                        Some(cid) => {
                            out.push(0xd8);
                            out.push(0x2a);
                            let mut prefixed: Vec<u8> = Vec::new();
                            prefixed.push(0);
                            prefixed.extend_from_slice(cid.as_slice());
                            assert(prefixed@ =~= seq![0u8] + cid@);
                            push_bytes(&mut out, prefixed.as_slice());
                            assert(out@ =~= dag_link(cid@));
                            Some(out)
                        },
                        None => None,
                    },
                    None => None,
                };
            }
            if members.len() == 1 && text::same_text(members[0].0.as_str(), "$bytes") {
                assert(is_lone(views, "$bytes"@));
                return match members[0].1.as_str() {
                    Some(raw) => match crypto::base64_decode(text::trim_end_matches(raw, '=')) {
                        Ok(bytes) => {
                            push_bytes(&mut out, bytes.as_slice());
                            assert(out@ =~= dag_bytes(bytes@));
                            Some(out)
                        },
                        Err(_) => None,
                    },
                    None => None,
                };
            }
            assert(!is_lone(views, "$link"@) && !is_lone(views, "$bytes"@));
            let ghost names = keys_of(views);
            let ghost encoded = dag_values(views, views.len());
            let mut keys: Vec<Vec<u8>> = Vec::new();
            let mut values: Vec<Vec<u8>> = Vec::new();
            for i in 0..members.len()
                invariant
                    *value == Json::Object(*members),
                    views == crate::json::member_views(members@),
                    names == keys_of(views),
                    encoded.len() == views.len(),
                    forall|j: int| 0 <= j < views.len() ==> #[trigger] encoded[j] == dag_cbor(views[j].1),
                    dag_cbor(value@) == dag_object(names, encoded),
                    keys@.len() == i,
                    values@.len() == i,
                    forall|j: int| 0 <= j < i ==> dag_keys(names)[j] == (#[trigger] keys@[j])@,
                    forall|j: int| 0 <= j < i ==> encoded[j] == Some((#[trigger] values@[j])@),
            {
                assert(decreases_to!(*value => value->Object_0));
                assert(decreases_to!(*members => members[i as int]));
                assert(decreases_to!(members[i as int] => members[i as int].1));
                keys.push(encode_text(members[i].0.as_str()));
                match record_to_dag_cbor(&members[i].1) {
                    Some(piece) => {
                        values.push(piece);
                    },
                    None => {
                        assert(encoded[i as int] is None);
                        return None;
                    },
                }
            }
            proof {
                let all = encoded;
                assert forall|j: int| 0 <= j < all.len() implies (#[trigger] all[j]) is Some by {
                    assert(all[j] == Some(values@[j]@));
                }
                assert(order::key_views(keys@) =~= dag_keys(names));
                assert(order::key_views(values@) =~= encodings(all));
            }
            out = encode_object(&keys, &values, Ghost(names));
        },
    }
    Some(out)
}

/// The text of the CID of a record, if it has a DAG-CBOR encoding.
pub open spec fn record_cid(value: JsonView) -> Option<Seq<char>> {
    match dag_cbor(value) {
        Some(block) => Some(cid_text_of(DAG_CBOR, SHA2_256, crypto::sha256_of(block))),
        None => None,
    }
}

/// The text of the CID of a record, if it has a DAG-CBOR encoding.
pub fn compute_record_cid(value: &Json) -> (cid: Option<String>)
    ensures
        text::opt_text(cid) == record_cid(value@),
{
    match record_to_dag_cbor(value) {
        Some(block) => Some(make_cid_text(DAG_CBOR, block.as_slice())),
        None => None,
    }
}

proof fn lemma_big_endian_len(n: nat, width: nat)
    ensures
        big_endian(n, width).len() == width,
    decreases width,
{
    if width > 0 {
        lemma_big_endian_len(n / 256, (width - 1) as nat);
    }
}

proof fn lemma_head_len(major: u8, n: nat)
    ensures
        cbor_head(major, n).len() == if n < 24 {
            1int
        } else if n < 0x100 {
            2
        } else if n < 0x10000 {
            3
        } else if n < 0x1_0000_0000 {
            5
        } else {
            9
        },
{
    lemma_big_endian_len(n, 1);
    lemma_big_endian_len(n, 2);
    lemma_big_endian_len(n, 4);
    lemma_big_endian_len(n, 8);
}

/// Different texts have different encodings.
pub proof fn lemma_dag_text_injective(a: Seq<char>, b: Seq<char>)
    requires
        dag_text(a) == dag_text(b),
    ensures
        a == b,
{
    let x = vstd::utf8::encode_utf8(a);
    let y = vstd::utf8::encode_utf8(b);
    lemma_head_len(3, x.len());
    lemma_head_len(3, y.len());
    assert(dag_text(a).len() == cbor_head(3, x.len()).len() + x.len());
    assert(dag_text(b).len() == cbor_head(3, y.len()).len() + y.len());
    assert(x.len() == y.len());
    let head = cbor_head(3, x.len());
    assert(x =~= dag_text(a).skip(head.len() as int));
    assert(y =~= dag_text(b).skip(head.len() as int));
    vstd::utf8::encode_utf8_decode_utf8(a);
    vstd::utf8::encode_utf8_decode_utf8(b);
}

proof fn lemma_distinct_encodings(members: Seq<(Seq<char>, JsonView)>)
    requires
        crate::json::distinct_keys(members),
    ensures
        dag_keys(keys_of(members)).no_duplicates(),
{
    let keys = dag_keys(keys_of(members));
    assert forall|i: int, j: int| 0 <= i < keys.len() && 0 <= j < keys.len() && i != j implies keys[i]
        != keys[j] by {
        if keys[i] == keys[j] {
            lemma_dag_text_injective(members[i].0, members[j].0);
            assert(members[i].0 == members[j].0);
        }
    }
}

/// Whether every member of one object is a member of another.
pub open spec fn within(a: Seq<(Seq<char>, JsonView)>, b: Seq<(Seq<char>, JsonView)>) -> bool {
    forall|i: int| 0 <= i < a.len() ==> b.contains(#[trigger] a[i])
}

proof fn lemma_keys_within(a: Seq<(Seq<char>, JsonView)>, b: Seq<(Seq<char>, JsonView)>, k: Seq<u8>)
    requires
        within(a, b),
        dag_keys(keys_of(a)).contains(k),
    ensures
        dag_keys(keys_of(b)).contains(k),
{
    let keys = dag_keys(keys_of(a));
    let i = choose|i: int| 0 <= i < keys.len() && keys[i] == k;
    assert(b.contains(a[i]));
    let j = choose|j: int| 0 <= j < b.len() && b[j] == a[i];
    assert(dag_keys(keys_of(b))[j] == k);
}

proof fn lemma_encode_within(a: Seq<(Seq<char>, JsonView)>, b: Seq<(Seq<char>, JsonView)>)
    requires
        within(a, b),
        all_encode(dag_values(b, b.len())),
    ensures
        all_encode(dag_values(a, a.len())),
{
    lemma_dag_values(a, a.len());
    lemma_dag_values(b, b.len());
    let values = dag_values(a, a.len());
    assert forall|i: int| 0 <= i < values.len() implies (#[trigger] values[i]) is Some by {
        assert(b.contains(a[i]));
        let j = choose|j: int| 0 <= j < b.len() && b[j] == a[i];
        assert(dag_values(b, b.len())[j] is Some);
    }
}

/// In which order an object's members were given makes no difference to its
/// encoding, nor then to its CID.
pub proof fn law_member_order_is_immaterial(a: Seq<(Seq<char>, JsonView)>, b: Seq<(Seq<char>, JsonView)>)
    requires
        crate::json::distinct_keys(a),
        crate::json::distinct_keys(b),
        within(a, b),
        within(b, a),
    ensures
        dag_cbor(JsonView::Object(a)) == dag_cbor(JsonView::Object(b)),
        record_cid(JsonView::Object(a)) == record_cid(JsonView::Object(b)),
{
    let keys_a = dag_keys(keys_of(a));
    let keys_b = dag_keys(keys_of(b));
    lemma_distinct_encodings(a);
    lemma_distinct_encodings(b);
    order::lemma_sorted_keys(keys_a);
    order::lemma_sorted_keys(keys_b);
    let sorted_a = order::sorted_keys(keys_a);
    let sorted_b = order::sorted_keys(keys_b);
    assert forall|k: Seq<u8>| #[trigger] sorted_a.contains(k) <==> sorted_b.contains(k) by {
        if keys_a.contains(k) {
            lemma_keys_within(a, b, k);
        }
        if keys_b.contains(k) {
            lemma_keys_within(b, a, k);
        }
    }
    order::lemma_one_strict_order(sorted_a, sorted_b);
    order::law_sorted_order(keys_a);
    order::law_sorted_order(keys_b);
    assert(sorted_a.len() == keys_a.len() && keys_a.len() == a.len());
    assert(sorted_b.len() == keys_b.len() && keys_b.len() == b.len());
    lemma_dag_values(a, a.len());
    lemma_dag_values(b, b.len());
    let values_a = dag_values(a, a.len());
    let values_b = dag_values(b, b.len());
    if a.len() == 1 {
        assert(b.contains(a[0]));
        assert(a[0] == b[0]);
        assert(a =~= b);
    } else {
        if all_encode(values_a) {
            lemma_encode_within(b, a);
        }
        if all_encode(values_b) {
            lemma_encode_within(a, b);
        }
        let order_a = order::sorted_order(keys_a);
        let order_b = order::sorted_order(keys_b);
        let entries_a = dag_entries(keys_of(a), encodings(values_a));
        let entries_b = dag_entries(keys_of(b), encodings(values_b));
        assert forall|i: int| 0 <= i < order_a.len() implies entries_a[i] == entries_b[i] by {
            let x = order_a[i];
            let y = order_b[i];
            assert(sorted_a[i] == keys_a[x]);
            assert(sorted_b[i] == keys_b[y]);
            lemma_dag_text_injective(a[x].0, b[y].0);
            assert(b.contains(a[x]));
            let z = choose|z: int| 0 <= z < b.len() && b[z] == a[x];
            assert(b[z].0 == b[y].0);
            assert(z == y);
        }
        assert(entries_a =~= entries_b);
    }
}

/// The number that bytes write, most significant byte first.
pub open spec fn big_endian_value(bytes: Seq<u8>) -> nat
    decreases bytes.len(),
{
    if bytes.len() == 0 {
        0
    } else {
        256 * big_endian_value(bytes.drop_last()) + bytes.last() as nat
    }
}

/// How many numbers there are of some bytes.
pub open spec fn byte_range(width: nat) -> nat
    decreases width,
{
    if width == 0 {
        1
    } else {
        256 * byte_range((width - 1) as nat)
    }
}

/// A number that fits some bytes is read back from them.
pub proof fn law_big_endian_reads_back(n: nat, width: nat)
    requires
        n < byte_range(width),
    ensures
        big_endian(n, width).len() == width,
        big_endian_value(big_endian(n, width)) == n,
    decreases width,
{
    lemma_big_endian_len(n, width);
    if width > 0 {
        law_big_endian_reads_back(n / 256, (width - 1) as nat);
        let head = big_endian(n / 256, (width - 1) as nat);
        assert(big_endian(n, width).drop_last() =~= head);
        assert(n == 256 * (n / 256) + n % 256);
    }
}

/// Reads the head of a CBOR item: its major type, its number and what comes after.
pub open spec fn head_read(bytes: Seq<u8>) -> Option<(nat, nat, Seq<u8>)> {
    let major = bytes[0] as nat / 32;
    let low = bytes[0] as nat % 32;
    let width: nat = if low < 24 {
        0
    } else if low == 24 {
        1
    } else if low == 25 {
        2
    } else if low == 26 {
        4
    } else {
        8
    };
    if bytes.len() < 1 + width || low > 27 {
        None
    } else if low < 24 {
        Some((major, low, bytes.skip(1)))
    } else {
        Some(
            (
                major,
                big_endian_value(bytes.subrange(1, 1 + width as int)),
                bytes.skip(1 + width as int),
            ),
        )
    }
}

/// The head of a CBOR item is read back as the type and the number that it was made
/// of, and is the shortest that holds the number.
pub proof fn law_heads_read_back(major: u8, n: u64, rest: Seq<u8>)
    requires
        major < 8,
    ensures
        head_read(cbor_head(major, n as nat) + rest) == Some((major as nat, n as nat, rest)),
        cbor_head(major, n as nat).len() == (if n < 24 {
            1int
        } else if n <= 0xff {
            2
        } else if n <= 0xffff {
            3
        } else if n <= 0xffff_ffff {
            5
        } else {
            9
        }),
{
    lemma_head_len(major, n as nat);
    let width: nat = if n < 24 {
        0
    } else if n < 0x100 {
        1
    } else if n < 0x10000 {
        2
    } else if n < 0x1_0000_0000 {
        4
    } else {
        8
    };
    let head = cbor_head(major, n as nat);
    let all = head + rest;
    assert(all[0] == head[0]);
    reveal_with_fuel(byte_range, 9);
    assert(all.skip(head.len() as int) =~= rest);
    if width > 0 {
        law_big_endian_reads_back(n as nat, width);
        assert(all.subrange(1, 1 + width as int) =~= big_endian(n as nat, width));
    }
}

proof fn lemma_heads_ordered(major: u8, a: nat, b: nat, x: Seq<u8>, y: Seq<u8>)
    requires
        major < 8,
        a < b <= u64::MAX,
    ensures
        text::bytes_before(cbor_head(major, a) + x, cbor_head(major, b) + y),
{
    reveal_with_fuel(byte_range, 9);
    let none = Seq::<u8>::empty();
    let p = cbor_head(major, a) + x;
    let q = cbor_head(major, b) + y;
    assert(p[0] == cbor_head(major, a)[0]);
    assert(q[0] == cbor_head(major, b)[0]);
    if p[0] == q[0] {
        let width: nat = if b < 0x100 {
            1
        } else if b < 0x10000 {
            2
        } else if b < 0x1_0000_0000 {
            4
        } else {
            8
        };
        assert(p.skip(1) =~= big_endian(a, width) + x);
        assert(q.skip(1) =~= big_endian(b, width) + y);
        lemma_big_endian_ordered(a, b, width, x, y);
    }
}

proof fn lemma_big_endian_ordered(a: nat, b: nat, width: nat, x: Seq<u8>, y: Seq<u8>)
    requires
        a < b < byte_range(width),
    ensures
        text::bytes_before(big_endian(a, width) + x, big_endian(b, width) + y),
    decreases width,
{
    if width > 0 {
        let w = (width - 1) as nat;
        let p = big_endian(a / 256, w);
        let q = big_endian(b / 256, w);
        assert(big_endian(a, width) + x =~= p + (seq![(a % 256) as u8] + x));
        assert(big_endian(b, width) + y =~= q + (seq![(b % 256) as u8] + y));
        if a / 256 < b / 256 {
            lemma_big_endian_ordered(
                a / 256,
                b / 256,
                w,
                seq![(a % 256) as u8] + x,
                seq![(b % 256) as u8] + y,
            );
        } else {
            assert(a / 256 == b / 256);
            text::law_bytes_are_ordered_as_in_a_dictionary(
                p,
                seq![(a % 256) as u8] + x,
                seq![(b % 256) as u8] + y,
            );
        }
    }
}

/// The keys of an object are ordered by their length in bytes, and those of one
/// length by their bytes.
pub proof fn law_shorter_keys_come_first(a: Seq<char>, b: Seq<char>)
    requires
        vstd::utf8::encode_utf8(a).len() <= u64::MAX,
        vstd::utf8::encode_utf8(b).len() <= u64::MAX,
    ensures
        ({
            let x = vstd::utf8::encode_utf8(a);
            let y = vstd::utf8::encode_utf8(b);
            text::bytes_before(dag_text(a), dag_text(b)) <==> x.len() < y.len() || (x.len() == y.len()
                && text::bytes_before(x, y))
        }),
{
    let x = vstd::utf8::encode_utf8(a);
    let y = vstd::utf8::encode_utf8(b);
    if x.len() < y.len() {
        lemma_heads_ordered(3, x.len(), y.len(), x, y);
    } else if y.len() < x.len() {
        lemma_heads_ordered(3, y.len(), x.len(), y, x);
        text::lemma_bytes_total(dag_text(a), dag_text(b));
    } else {
        lemma_common_start(cbor_head(3, x.len()), x, y);
    }
}

proof fn lemma_common_start(common: Seq<u8>, x: Seq<u8>, y: Seq<u8>)
    ensures
        text::bytes_before(common + x, common + y) == text::bytes_before(x, y),
    decreases common.len(),
{
    if common.len() == 0 {
        assert(common + x =~= x);
        assert(common + y =~= y);
    } else {
        lemma_common_start(common.skip(1), x, y);
        assert((common + x).skip(1) =~= common.skip(1) + x);
        assert((common + y).skip(1) =~= common.skip(1) + y);
    }
}

/// The scalars of a record are encoded each as its own kind of item: null and the
/// truth values in one byte, a number as that number, and a text as its UTF-8 bytes.
pub proof fn law_scalars_read_back(n: u64, negative: i64, t: Seq<char>, yes: bool)
    requires
        vstd::utf8::encode_utf8(t).len() <= u64::MAX,
        negative < 0,
    ensures
        dag_cbor(JsonView::Null) == Some(seq![0xf6u8]),
        dag_cbor(JsonView::Bool(true)) == Some(seq![0xf5u8]),
        dag_cbor(JsonView::Bool(false)) == Some(seq![0xf4u8]),
        dag_cbor(JsonView::Unsigned(n)) matches Some(bytes) && head_read(bytes) == Some(
            (0nat, n as nat, Seq::<u8>::empty()),
        ),
        dag_cbor(JsonView::Negative(negative)) matches Some(bytes) && head_read(bytes) == Some(
            (1nat, (-1 - negative) as nat, Seq::<u8>::empty()),
        ),
        dag_cbor(JsonView::Text(t)) matches Some(bytes) && head_read(bytes) == Some(
            (3nat, vstd::utf8::encode_utf8(t).len(), vstd::utf8::encode_utf8(t)),
        ),
{
    let none = Seq::<u8>::empty();
    law_heads_read_back(0, n, none);
    assert(cbor_head(0, n as nat) + none =~= cbor_head(0, n as nat));
    let m = (-1 - negative) as u64;
    law_heads_read_back(1, m, none);
    assert(cbor_head(1, m as nat) + none =~= cbor_head(1, m as nat));
    law_heads_read_back(
        3,
        vstd::utf8::encode_utf8(t).len() as u64,
        vstd::utf8::encode_utf8(t),
    );
}

/// A list is encoded just if its items are: as how many they are, and then one
/// after the other. An object is encoded just if its values are: as how many members
/// it has, and then each key with its own value behind it.
pub proof fn law_containers_hold_what_they_count(
    items: Seq<JsonView>,
    members: Seq<(Seq<char>, JsonView)>,
)
    requires
        items.len() <= u64::MAX,
        members.len() <= u64::MAX,
        !is_lone(members, "$link"@),
        !is_lone(members, "$bytes"@),
    ensures
        dag_cbor(JsonView::List(items)) is Some <==> forall|i: int|
            0 <= i < items.len() ==> dag_cbor(#[trigger] items[i]) is Some,
        dag_cbor(JsonView::List(items)) matches Some(bytes) ==> head_read(bytes) == Some(
            (
                4nat,
                items.len(),
                concat(Seq::new(items.len(), |i: int| dag_cbor(items[i])->0)),
            ),
        ),
        dag_cbor(JsonView::Object(members)) is Some <==> forall|i: int|
            0 <= i < members.len() ==> dag_cbor((#[trigger] members[i]).1) is Some,
        dag_cbor(JsonView::Object(members)) matches Some(bytes) ==> exists|order: Seq<int>|
            #![trigger order::is_permutation(order, members.len())]
            order::is_permutation(order, members.len()) && order::is_ascending(
                order,
                Seq::new(members.len(), |i: int| dag_text(members[i].0)),
            ) && head_read(bytes) == Some(
                (
                    5nat,
                    members.len(),
                    concat(
                        Seq::new(
                            members.len(),
                            |i: int| dag_text(members[order[i]].0) + dag_cbor(members[order[i]].1)->0,
                        ),
                    ),
                ),
            ),
{
    let list = dag_items(items, items.len());
    lemma_dag_items(items, items.len());
    if all_encode(list) {
        assert forall|i: int| 0 <= i < items.len() implies dag_cbor(#[trigger] items[i]) is Some by {
            assert(list[i] is Some);
        }
        assert(encodings(list) =~= Seq::new(items.len(), |i: int| dag_cbor(items[i])->0));
        law_heads_read_back(4, items.len() as u64, concat(encodings(list)));
    }
    if forall|i: int| 0 <= i < items.len() ==> dag_cbor(#[trigger] items[i]) is Some {
        assert forall|i: int| 0 <= i < list.len() implies (#[trigger] list[i]) is Some by {
            assert(dag_cbor(items[i]) is Some);
        }
    }
    let values = dag_values(members, members.len());
    lemma_dag_values(members, members.len());
    let keys = keys_of(members);
    if all_encode(values) {
        assert forall|i: int| 0 <= i < members.len() implies dag_cbor((#[trigger] members[i]).1) is Some by {
            assert(values[i] is Some);
        }
        let order = order::sorted_order(dag_keys(keys));
        order::law_sorted_order(dag_keys(keys));
        assert(dag_keys(keys) =~= Seq::new(members.len(), |i: int| dag_text(members[i].0)));
        let entries = dag_entries(keys, encodings(values));
        assert(entries =~= Seq::new(
            members.len(),
            |i: int| dag_text(members[order[i]].0) + dag_cbor(members[order[i]].1)->0,
        ));
        law_heads_read_back(5, members.len() as u64, concat(entries));
        assert(order::is_permutation(order, members.len()));
    }
    if forall|i: int| 0 <= i < members.len() ==> dag_cbor((#[trigger] members[i]).1) is Some {
        assert forall|i: int| 0 <= i < values.len() implies (#[trigger] values[i]) is Some by {
            assert(dag_cbor(members[i].1) is Some);
        }
    }
}

/// Pieces are put one after the other, and none is left out.
pub proof fn law_pieces_follow_one_another(pieces: Seq<Seq<u8>>, last: Seq<u8>)
    ensures
        concat(Seq::empty()).len() == 0,
        concat(pieces.push(last)) == concat(pieces) + last,
{
    lemma_joined_prefix(pieces, last, pieces.len());
}

proof fn lemma_joined_prefix(pieces: Seq<Seq<u8>>, last: Seq<u8>, n: nat)
    requires
        n <= pieces.len(),
    ensures
        joined(pieces.push(last), n) == joined(pieces, n),
    decreases n,
{
    if n > 0 {
        lemma_joined_prefix(pieces, last, (n - 1) as nat);
    }
}

/// A link is encoded as the tag of links with the CID's bytes behind a zero, and
/// bytes as those that their text decodes to, with or without padding. Neither is
/// encoded where its text holds none.
pub proof fn law_links_and_bytes_are_encoded_as_such(
    members: Seq<(Seq<char>, JsonView)>,
    raw: Seq<char>,
    cid: Seq<u8>,
    bytes: Seq<u8>,
)
    requires
        members.len() == 1,
        members[0].1 == JsonView::Text(raw),
        cid.len() < u64::MAX,
        bytes.len() <= u64::MAX,
    ensures
        members[0].0 == "$link"@ && cid_parsed(raw) == Some(cid) ==> (dag_cbor(
            JsonView::Object(members),
        ) matches Some(out) && out.len() > 2 && out[0] == 0xd8 && out[1] == 42 && head_read(out.skip(2)) == Some(
            (2nat, cid.len() + 1, seq![0u8] + cid),
        )),
        members[0].0 == "$link"@ && cid_parsed(raw) is None ==> dag_cbor(JsonView::Object(members)) is None,
        members[0].0 == "$bytes"@ && crypto::base64_bytes(text::trimmed_end(raw, '=')) == Ok::<
            Seq<u8>,
            Seq<char>,
        >(bytes) ==> (dag_cbor(JsonView::Object(members)) matches Some(out) && head_read(out) == Some(
            (2nat, bytes.len(), bytes),
        )),
        members[0].0 == "$bytes"@ && crypto::base64_bytes(text::trimmed_end(raw, '=')) is Err ==> dag_cbor(
            JsonView::Object(members),
        ) is None,
{
    reveal_strlit("$link");
    reveal_strlit("$bytes");
    assert("$link"@.len() == 5 && "$bytes"@.len() == 6);
    let content = seq![0u8] + cid;
    law_heads_read_back(2, content.len() as u64, content);
    lemma_head_len(2, content.len());
    law_heads_read_back(2, bytes.len() as u64, bytes);
    assert(dag_link(cid).skip(2) =~= dag_bytes(content));
}

/// A number that is no integer is encoded in its eight bytes, unless it is infinite
/// or no number, which its exponent shows.
pub proof fn law_only_finite_floats_are_encoded(sign: nat, exponent: nat, mantissa: nat, t: Seq<char>, bits: u64)
    requires
        sign < 2,
        exponent < 0x800,
        mantissa < 0x10_0000_0000_0000,
        bits == sign * 0x8000_0000_0000_0000 + exponent * 0x10_0000_0000_0000 + mantissa,
        crate::json::float_bits_of(t) == Some(bits),
    ensures
        dag_cbor(JsonView::Float(t)) is Some <==> exponent != 2047,
        dag_cbor(JsonView::Float(t)) matches Some(out) ==> out.len() == 9 && out[0] == 0xfb && big_endian_value(
            out.skip(1),
        ) == bits,
{
    assert(bits as nat / 0x10_0000_0000_0000 == sign * 0x800 + exponent);
    assert((sign * 0x800 + exponent) % 0x800 == exponent);
    reveal_with_fuel(byte_range, 9);
    law_big_endian_reads_back(bits as nat, 8);
    let out = seq![0xfbu8] + big_endian(bits as nat, 8);
    assert(out.skip(1) =~= big_endian(bits as nat, 8));
}

/// A block is named by the SHA-256 of its bytes: the binary CID of a codec below 128
/// is a one, the codec, the code of the hash with its length, and the hash; and a
/// record has the CID of its encoding, as DAG-CBOR.
pub proof fn law_cids_name_the_hash_of_the_block(codec: u64, block: Seq<u8>, value: JsonView)
    requires
        codec < 128,
    ensures
        cid_bytes(codec, block) == seq![1u8, codec as u8, 0x12u8, 32u8] + crypto::sha256_of(block),
        record_cid(value) is Some <==> dag_cbor(value) is Some,
        dag_cbor(value) matches Some(encoded) ==> record_cid(value) == Some(
            cid_text_of(0x71, 0x12, crypto::sha256_of(encoded)),
        ),
{
    assert(varint_of(1) =~= seq![1u8]);
    assert(varint_of(codec as nat) =~= seq![codec as u8]);
    assert(cid_bytes(codec, block) =~= seq![1u8, codec as u8, 0x12u8, 32u8] + crypto::sha256_of(block));
}

} // verus!
