//! Archives of a repo: a commit, an index and the records, as one file.
use vstd::prelude::*;

use crate::error::{AppError, ErrorView};
use crate::ipld;
use crate::ipld::{Cbor, CborView};
use crate::order;
use crate::spaces::commit::{CommitView, SignedCommit};
use crate::spaces::types::{RecordView, SpaceRecord};
use crate::text;

verus! {

/// What a list of records holds.
pub open spec fn record_views(records: Seq<SpaceRecord>) -> Seq<RecordView> {
    records.map_values(|r: SpaceRecord| r@)
}

/// The key under which an archive indexes a record.
pub open spec fn record_key(record: RecordView) -> Seq<char> {
    record.collection + "/"@ + record.rkey
}

/// The first record that has no DAG-CBOR encoding.
pub open spec fn first_unencodable(records: Seq<RecordView>) -> Option<int>
    decreases records.len(),
{
    if records.len() == 0 {
        None
    } else {
        match first_unencodable(records.drop_last()) {
            Some(i) => Some(i),
            None => if ipld::dag_cbor(records.last().record) is None {
                Some(records.len() - 1)
            } else {
                None
            },
        }
    }
}

/// The keys of records, as bytes.
pub open spec fn record_keys(records: Seq<RecordView>) -> Seq<Seq<u8>> {
    records.map_values(|r: RecordView| vstd::utf8::encode_utf8(record_key(r)))
}

/// The records in the order of their keys.
pub open spec fn in_key_order(records: Seq<RecordView>) -> Seq<RecordView> {
    let order = order::sorted_order(record_keys(records));
    Seq::new(order.len(), |i: int| records[order[i]])
}

/// The block of a record.
pub open spec fn record_block(record: RecordView) -> Seq<u8> {
    ipld::dag_cbor(record.record)->0
}

/// The CID of a block of an archive.
pub open spec fn block_cid(block: Seq<u8>) -> Seq<u8> {
    ipld::cid_bytes(ipld::DAG_CBOR, block)
}

/// The index of an archive: the CID of each record's block, by the record's
/// key.
pub open spec fn index_of(sorted: Seq<RecordView>) -> CborView {
    CborView::Table(
        Seq::new(
            sorted.len(),
            |i: int| (record_key(sorted[i]), ipld::link_view(block_cid(record_block(sorted[i])))),
        ),
    )
}

/// The commit of an archive. The signature is not part of it.
pub open spec fn commit_cbor(commit: CommitView) -> CborView {
    CborView::Table(
        seq![
            ("ver"@, CborView::Unsigned(commit.ver as u64)),
            ("hash"@, CborView::Bytes(commit.hash)),
            ("ikm"@, CborView::Bytes(commit.ikm)),
            ("mac"@, CborView::Bytes(commit.mac)),
            ("rev"@, CborView::Text(commit.rev)),
        ],
    )
}

/// The header of an archive, which names its two roots.
pub open spec fn header_cbor(commit_cid: Seq<u8>, index_cid: Seq<u8>) -> CborView {
    CborView::Table(
        seq![
            ("version"@, CborView::Unsigned(1)),
            (
                "roots"@,
                CborView::List(seq![ipld::link_view(commit_cid), ipld::link_view(index_cid)]),
            ),
        ],
    )
}

/// A block behind its CID.
pub open spec fn addressed(block: Seq<u8>) -> Seq<u8> {
    block_cid(block) + block
}

/// The parts of an archive: the header, the commit, the index, and the records
/// in the order of their keys.
pub open spec fn car_parts(commit: CommitView, records: Seq<RecordView>) -> Seq<Seq<u8>> {
    let sorted = in_key_order(records);
    let commit_block = ipld::cbor_rendered(commit_cbor(commit));
    let index_block = ipld::cbor_rendered(index_of(sorted));
    let header = ipld::cbor_rendered(header_cbor(block_cid(commit_block), block_cid(index_block)));
    seq![header, addressed(commit_block), addressed(index_block)] + Seq::new(
        sorted.len(),
        |i: int| addressed(record_block(sorted[i])),
    )
}

/// A part behind its length.
pub open spec fn prefixed(part: Seq<u8>) -> Seq<u8> {
    ipld::varint_of(part.len()) + part
}

/// The first `n` parts, each behind its length.
pub open spec fn car_bytes(parts: Seq<Seq<u8>>, n: nat) -> Seq<u8>
    decreases n,
{
    if n == 0 {
        Seq::empty()
    } else {
        car_bytes(parts, (n - 1) as nat) + prefixed(parts[n - 1])
    }
}

/// The archive of a repo.
pub open spec fn car_of(commit: CommitView, records: Seq<RecordView>) -> Result<Seq<u8>, ErrorView> {
    match first_unencodable(records) {
        Some(i) => Err(
            ErrorView::Internal("record "@ + records[i].uri + " cannot be encoded as DAG-CBOR"@),
        ),
        None => {
            let parts = car_parts(commit, records);
            Ok(car_bytes(parts, parts.len()))
        },
    }
}

/// The parts that bytes hold, one behind the other, each behind its length.
pub open spec fn read_parts(bytes: Seq<u8>) -> Option<Seq<Seq<u8>>>
    decreases bytes.len(),
{
    if bytes.len() == 0 {
        Some(Seq::empty())
    } else {
        match ipld::varint_read(bytes) {
            Some((n, rest)) => if n <= rest.len() && rest.len() < bytes.len() {
                match read_parts(rest.skip(n as int)) {
                    Some(parts) => Some(seq![rest.take(n as int)] + parts),
                    None => None,
                }
            } else {
                None
            },
            None => None,
        }
    }
}

proof fn lemma_first_unencodable(records: Seq<RecordView>)
    ensures
        first_unencodable(records) matches Some(i) ==> 0 <= i < records.len() && ipld::dag_cbor(
            records[i].record,
        ) is None,
        first_unencodable(records) is None ==> forall|i: int|
            0 <= i < records.len() ==> ipld::dag_cbor((#[trigger] records[i]).record) is Some,
    decreases records.len(),
{
    if records.len() > 0 {
        let head = records.drop_last();
        lemma_first_unencodable(head);
        if first_unencodable(records) is None {
            assert forall|i: int| 0 <= i < records.len() implies ipld::dag_cbor(
                (#[trigger] records[i]).record,
            ) is Some by {
                if i < head.len() {
                    assert(head[i] == records[i]);
                }
            }
        }
    }
}

proof fn lemma_first_unencodable_at(records: Seq<RecordView>, n: int)
    requires
        0 <= n < records.len(),
        first_unencodable(records.take(n)) is None,
        ipld::dag_cbor(records[n].record) is None,
    ensures
        first_unencodable(records) == Some(n),
    decreases records.len() - n,
{
    assert(records.take(n + 1).drop_last() =~= records.take(n));
    lemma_first_stays(records, n + 1);
}

proof fn lemma_first_stays(records: Seq<RecordView>, n: int)
    requires
        0 <= n <= records.len(),
        first_unencodable(records.take(n)) is Some,
    ensures
        first_unencodable(records) == first_unencodable(records.take(n)),
    decreases records.len() - n,
{
    if n < records.len() {
        assert(records.take(n + 1).drop_last() =~= records.take(n));
        lemma_first_stays(records, n + 1);
    } else {
        assert(records.take(n) =~= records);
    }
}

fn push_part(car: &mut Vec<u8>, part: &[u8])
    ensures
        final(car)@ == old(car)@ + prefixed(part@),
{
    let ghost before = car@;
    let length = ipld::unsigned_varint(part.len() as u64);
    car.extend_from_slice(length.as_slice());
    car.extend_from_slice(part);
    assert(car@ =~= before + prefixed(part@));
}

/// Appends a block behind its CID, behind the length of both.
fn write_car_block(car: &mut Vec<u8>, cid: &[u8], block: &[u8])
    requires
        cid@ == block_cid(block@),
    ensures
        final(car)@ == old(car)@ + prefixed(addressed(block@)),
{
    let mut part: Vec<u8> = Vec::new();
    part.extend_from_slice(cid);
    part.extend_from_slice(block);
    assert(part@ =~= addressed(block@));
    push_part(car, part.as_slice());
}

fn commit_value(commit: &SignedCommit) -> (value: Cbor)
    ensures
        value@ == commit_cbor(commit@),
{
    let value = Cbor::Table(
        vec![
            ("ver".to_owned(), Cbor::Unsigned(commit.ver as u64)),
            ("hash".to_owned(), Cbor::Bytes(vstd::slice::slice_to_vec(&commit.hash))),
            ("ikm".to_owned(), Cbor::Bytes(vstd::slice::slice_to_vec(&commit.ikm))),
            ("mac".to_owned(), Cbor::Bytes(vstd::slice::slice_to_vec(&commit.mac))),
            ("rev".to_owned(), Cbor::Text(commit.rev.clone())),
        ],
    );
    proof {
        ipld::lemma_cbor_views(value);
        assert(value@->Table_0 =~= commit_cbor(commit@)->Table_0);
    }
    value
}

fn header_value(commit_cid: &[u8], index_cid: &[u8]) -> (value: Cbor)
    ensures
        value@ == header_cbor(commit_cid@, index_cid@),
{
    let roots = Cbor::List(vec![ipld::cid_link(commit_cid), ipld::cid_link(index_cid)]);
    proof {
        ipld::lemma_cbor_views(roots);
        assert(roots@->List_0 =~= seq![ipld::link_view(commit_cid@), ipld::link_view(index_cid@)]);
    }
    let value = Cbor::Table(
        vec![("version".to_owned(), Cbor::Unsigned(1)), ("roots".to_owned(), roots)],
    );
    proof {
        ipld::lemma_cbor_views(value);
        assert(value@->Table_0 =~= header_cbor(commit_cid@, index_cid@)->Table_0);
    }
    value
}

/// Writes the archive of a repo. Every record must have a DAG-CBOR encoding.
pub fn serialize_repo(commit: &SignedCommit, records: &Vec<SpaceRecord>) -> (car: Result<
    Vec<u8>,
    AppError,
>)
    ensures
        crate::error::outcome(car) == car_of(commit@, record_views(records@)),
{
    let ghost views = record_views(records@);
    let mut keys: Vec<Vec<u8>> = Vec::new();
    let mut blocks: Vec<Vec<u8>> = Vec::new();
    assert(first_unencodable(views.take(0)) is None);
    for i in 0..records.len()
        invariant
            views == record_views(records@),
            keys@.len() == i,
            blocks@.len() == i,
            first_unencodable(views.take(i as int)) is None,
            forall|j: int| 0 <= j < i ==> record_keys(views)[j] == (#[trigger] keys@[j])@,
            forall|j: int| 0 <= j < i ==> ipld::dag_cbor(views[j].record) == Some((#[trigger] blocks@[j])@),
    {
        let record = &records[i];
        assert(views[i as int] == record@);
        match ipld::record_to_dag_cbor(&record.record) {
            Some(block) => {
                blocks.push(block);
                assert(views.take(i + 1).drop_last() =~= views.take(i as int));
            },
            None => {
                proof {
                    lemma_first_unencodable_at(views, i as int);
                }
                return Err(
                    AppError::Internal(
                        text::cat3(
                            "record ",
                            record.uri.as_str(),
                            " cannot be encoded as DAG-CBOR",
                        ),
                    ),
                );
            },
        }
        let key = text::cat3(record.collection.as_str(), "/", record.rkey.as_str());
        let key_bytes = vstd::slice::slice_to_vec(key.as_str().as_bytes());
        keys.push(key_bytes);
    }
    assert(views.take(views.len() as int) =~= views);
    assert(order::key_views(keys@) =~= record_keys(views));
    let order = order::sort_order(&keys);
    let ghost indices = order::index_views(order@);
    let ghost sorted = in_key_order(views);

    let mut members: Vec<(String, Cbor)> = Vec::new();
    let mut cids: Vec<Vec<u8>> = Vec::new();
    for i in 0..order.len()
        invariant
            views == record_views(records@),
            blocks@.len() == records@.len(),
            indices == order::index_views(order@),
            order::is_permutation(indices, records@.len()),
            indices == order::sorted_order(record_keys(views)),
            sorted == in_key_order(views),
            members@.len() == i,
            cids@.len() == i,
            forall|j: int| 0 <= j < views.len() ==> ipld::dag_cbor(views[j].record) == Some((#[trigger] blocks@[j])@),
            forall|j: int|
                0 <= j < i ==> (#[trigger] members@[j]).0@ == record_key(sorted[j]) && members@[j].1@
                    == ipld::link_view(block_cid(record_block(sorted[j]))),
            forall|j: int| 0 <= j < i ==> (#[trigger] cids@[j])@ == block_cid(record_block(sorted[j])),
    {
        let at: usize = order[i];
        assert(indices[i as int] == at as int);
        let record = &records[at];
        assert(views[at as int] == record@);
        assert(sorted[i as int] == record@);
        let key = text::cat3(record.collection.as_str(), "/", record.rkey.as_str());
        let cid = ipld::make_cid(ipld::DAG_CBOR, blocks[at].as_slice());
        members.push((key, ipld::cid_link(cid.as_slice())));
        cids.push(cid);
    }
    let index = Cbor::Table(members);
    proof {
        ipld::lemma_cbor_views(index);
        assert(index@->Table_0 =~= index_of(sorted)->Table_0);
    }
    let index_block = ipld::encode_cbor(&index);
    let index_cid = ipld::make_cid(ipld::DAG_CBOR, index_block.as_slice());
    let commit_block = ipld::encode_cbor(&commit_value(commit));
    let commit_cid = ipld::make_cid(ipld::DAG_CBOR, commit_block.as_slice());
    let header = header_value(commit_cid.as_slice(), index_cid.as_slice());
    let header_block = ipld::encode_cbor(&header);

    let ghost parts = car_parts(commit@, views);
    let mut car: Vec<u8> = Vec::new();
    push_part(&mut car, header_block.as_slice());
    write_car_block(&mut car, commit_cid.as_slice(), commit_block.as_slice());
    write_car_block(&mut car, index_cid.as_slice(), index_block.as_slice());
    proof {
        reveal_with_fuel(car_bytes, 4);
        assert(parts[0] == header_block@);
        assert(parts[1] == addressed(commit_block@));
        assert(parts[2] == addressed(index_block@));
        assert(car@ =~= car_bytes(parts, 3));
    }
    for i in 0..order.len()
        invariant
            views == record_views(records@),
            blocks@.len() == records@.len(),
            indices == order::index_views(order@),
            order::is_permutation(indices, records@.len()),
            indices == order::sorted_order(record_keys(views)),
            sorted == in_key_order(views),
            cids@.len() == order@.len(),
            parts == car_parts(commit@, views),
            car@ == car_bytes(parts, (3 + i) as nat),
            forall|j: int| 0 <= j < views.len() ==> ipld::dag_cbor(views[j].record) == Some((#[trigger] blocks@[j])@),
            forall|j: int| 0 <= j < order@.len() ==> (#[trigger] cids@[j])@ == block_cid(record_block(sorted[j])),
    {
        let at: usize = order[i];
        assert(indices[i as int] == at as int);
        assert(sorted[i as int] == views[at as int]);
        assert(record_block(sorted[i as int]) == blocks@[at as int]@);
        write_car_block(&mut car, cids[i].as_slice(), blocks[at].as_slice());
        assert(parts[3 + i] == addressed(record_block(sorted[i as int])));
    }
    assert(parts.len() == 3 + order@.len());
    Ok(car)
}

proof fn lemma_read_prefixed(part: Seq<u8>, rest: Seq<u8>)
    ensures
        read_parts(prefixed(part) + rest) == (match read_parts(rest) {
            Some(parts) => Some(seq![part] + parts),
            None => None,
        }),
{
    let bytes = prefixed(part) + rest;
    ipld::law_varint_reads_back(part.len(), part + rest);
    assert(bytes =~= ipld::varint_of(part.len()) + (part + rest));
    assert((part + rest).take(part.len() as int) =~= part);
    assert((part + rest).skip(part.len() as int) =~= rest);
}

proof fn lemma_read_car(parts: Seq<Seq<u8>>, n: nat, rest: Seq<u8>)
    requires
        n <= parts.len(),
    ensures
        read_parts(car_bytes(parts, n) + rest) == (match read_parts(rest) {
            Some(more) => Some(parts.take(n as int) + more),
            None => None,
        }),
    decreases n,
{
    if n == 0 {
        assert(car_bytes(parts, 0) + rest =~= rest);
        if let Some(more) = read_parts(rest) {
            assert(parts.take(0) + more =~= more);
        }
    } else {
        let last = prefixed(parts[n - 1]);
        assert(car_bytes(parts, n) + rest =~= car_bytes(parts, (n - 1) as nat) + (last + rest));
        lemma_read_car(parts, (n - 1) as nat, last + rest);
        lemma_read_prefixed(parts[n - 1], rest);
        if let Some(more) = read_parts(rest) {
            assert(parts.take(n - 1) + (seq![parts[n - 1]] + more) =~= parts.take(n as int) + more);
        }
    }
}

/// Reading an archive part by part gives exactly the header, the commit, the
/// index and the records that it was made of.
pub proof fn law_archive_reads_back(commit: CommitView, records: Seq<RecordView>)
    ensures
        car_of(commit, records) matches Ok(bytes) ==> read_parts(bytes) == Some(
            car_parts(commit, records),
        ),
{
    let parts = car_parts(commit, records);
    let none = Seq::<u8>::empty();
    lemma_read_car(parts, parts.len(), none);
    assert(car_bytes(parts, parts.len()) + none =~= car_bytes(parts, parts.len()));
    assert(parts.take(parts.len() as int) + Seq::<Seq<u8>>::empty() =~= parts);
}

/// An archive holds every record once, in the order of the keys.
pub proof fn law_archive_holds_every_record(records: Seq<RecordView>)
    ensures
        in_key_order(records).len() == records.len(),
        forall|i: int|
            0 <= i < records.len() ==> in_key_order(records).contains(#[trigger] records[i]),
        forall|i: int, j: int|
            0 <= i < j < records.len() ==> !text::text_before(
                record_key(#[trigger] in_key_order(records)[j]),
                record_key(#[trigger] in_key_order(records)[i]),
            ),
{
    let keys = record_keys(records);
    let order = order::sorted_order(keys);
    let sorted = in_key_order(records);
    order::law_sorted_order(keys);
    assert forall|i: int| 0 <= i < records.len() implies sorted.contains(#[trigger] records[i]) by {
        order::lemma_permutation_reaches(order, records.len(), i);
        let k = choose|k: int| 0 <= k < order.len() && order[k] == i;
        assert(sorted[k] == records[i]);
    }
    assert forall|i: int, j: int| 0 <= i < j < records.len() implies !text::text_before(
        record_key(#[trigger] sorted[j]),
        record_key(#[trigger] sorted[i]),
    ) by {
        assert(keys[order[j]] == vstd::utf8::encode_utf8(record_key(sorted[j])));
        assert(keys[order[i]] == vstd::utf8::encode_utf8(record_key(sorted[i])));
    }
}

proof fn lemma_same_records(a: Seq<RecordView>, b: Seq<RecordView>)
    requires
        a.to_multiset() == b.to_multiset(),
    ensures
        a.len() == b.len(),
        forall|r: RecordView| #[trigger] a.contains(r) <==> b.contains(r),
{
    a.to_multiset_ensures();
    b.to_multiset_ensures();
    assert forall|r: RecordView| #[trigger] a.contains(r) <==> b.contains(r) by {
        assert(a.contains(r) <==> a.to_multiset().count(r) > 0);
        assert(b.contains(r) <==> b.to_multiset().count(r) > 0);
    }
}

/// Whether the records are kept under different keys.
pub open spec fn keys_differ(records: Seq<RecordView>) -> bool {
    forall|i: int, j: int|
        0 <= i < j < records.len() ==> record_key(#[trigger] records[i]) != record_key(
            #[trigger] records[j],
        )
}

proof fn lemma_keys_differ(records: Seq<RecordView>)
    requires
        keys_differ(records),
    ensures
        record_keys(records).no_duplicates(),
{
    let keys = record_keys(records);
    assert forall|i: int, j: int| 0 <= i < keys.len() && 0 <= j < keys.len() && i != j implies keys[i]
        != keys[j] by {
        vstd::utf8::encode_utf8_decode_utf8(record_key(records[i]));
        vstd::utf8::encode_utf8_decode_utf8(record_key(records[j]));
        if i < j {
            assert(record_key(records[i]) != record_key(records[j]));
        } else {
            assert(record_key(records[j]) != record_key(records[i]));
        }
    }
}

proof fn lemma_in_key_order(records: Seq<RecordView>)
    ensures
        in_key_order(records).len() == records.len(),
        record_keys(in_key_order(records)) == order::sorted_keys(record_keys(records)),
        forall|i: int|
            0 <= i < records.len() ==> records.contains(#[trigger] in_key_order(records)[i]),
{
    let keys = record_keys(records);
    let order = order::sorted_order(keys);
    order::law_sorted_order(keys);
    let sorted = in_key_order(records);
    assert forall|i: int| 0 <= i < records.len() implies records.contains(#[trigger] sorted[i]) by {
        assert(sorted[i] == records[order[i]]);
    }
    assert(record_keys(sorted) =~= order::sorted_keys(keys)) by {
        assert forall|i: int| 0 <= i < sorted.len() implies record_keys(sorted)[i] == order::sorted_keys(
            keys,
        )[i] by {
            assert(0 <= order[i] < records.len());
        }
    }
}

proof fn lemma_keys_stay_different(a: Seq<RecordView>, b: Seq<RecordView>)
    requires
        a.to_multiset() == b.to_multiset(),
        keys_differ(a),
    ensures
        keys_differ(b),
{
    lemma_same_records(a, b);
    a.to_multiset_ensures();
    assert(a.no_duplicates()) by {
        assert forall|i: int, j: int| 0 <= i < a.len() && 0 <= j < a.len() && i != j implies a[i] != a[j] by {
            if i < j {
                assert(record_key(a[i]) != record_key(a[j]));
            } else {
                assert(record_key(a[j]) != record_key(a[i]));
            }
        }
    }
    a.lemma_multiset_has_no_duplicates();
    b.lemma_multiset_has_no_duplicates_conv();
    assert forall|i: int, j: int| 0 <= i < j < b.len() implies record_key(#[trigger] b[i]) != record_key(
        #[trigger] b[j],
    ) by {
        assert(a.contains(b[i]) && a.contains(b[j]));
        let m = choose|m: int| 0 <= m < a.len() && a[m] == b[i];
        let n = choose|n: int| 0 <= n < a.len() && a[n] == b[j];
        assert(m != n);
        if m < n {
            assert(record_key(a[m]) != record_key(a[n]));
        } else {
            assert(record_key(a[n]) != record_key(a[m]));
        }
    }
}

proof fn lemma_one_key_order(a: Seq<RecordView>, b: Seq<RecordView>)
    requires
        a.to_multiset() == b.to_multiset(),
        keys_differ(a),
        keys_differ(b),
    ensures
        in_key_order(a) == in_key_order(b),
{
    lemma_same_records(a, b);
    lemma_keys_differ(a);
    lemma_keys_differ(b);
    let ka = record_keys(a);
    let kb = record_keys(b);
    order::lemma_sorted_keys(ka);
    order::lemma_sorted_keys(kb);
    lemma_in_key_order(a);
    lemma_in_key_order(b);
    assert forall|k: Seq<u8>| #[trigger] order::sorted_keys(ka).contains(k) <==> order::sorted_keys(
        kb,
    ).contains(k) by {
        if ka.contains(k) {
            let i = choose|i: int| 0 <= i < ka.len() && ka[i] == k;
            assert(a.contains(a[i]));
            assert(b.contains(a[i]));
            let j = choose|j: int| 0 <= j < b.len() && b[j] == a[i];
            assert(kb[j] == k);
        }
        if kb.contains(k) {
            let i = choose|i: int| 0 <= i < kb.len() && kb[i] == k;
            assert(a.contains(b[i]));
            let j = choose|j: int| 0 <= j < a.len() && a[j] == b[i];
            assert(ka[j] == k);
        }
    }
    order::lemma_one_strict_order(order::sorted_keys(ka), order::sorted_keys(kb));
    let sa = in_key_order(a);
    let sb = in_key_order(b);
    assert forall|i: int| 0 <= i < sa.len() implies sa[i] == sb[i] by {
        assert(record_keys(sa)[i] == record_keys(sb)[i]);
        assert(a.contains(sa[i]) && b.contains(sb[i]) && a.contains(sb[i]));
        let m = choose|m: int| 0 <= m < a.len() && a[m] == sa[i];
        let n = choose|n: int| 0 <= n < a.len() && a[n] == sb[i];
        assert(ka[m] == ka[n]);
    }
    assert(sa =~= sb);
}

/// The order in which records with different keys are given makes no difference
/// to the archive: either both lists have none, which is so just if some record
/// has no DAG-CBOR encoding, or both have the same.
pub proof fn law_archives_ignore_the_order_of_records(
    commit: CommitView,
    a: Seq<RecordView>,
    b: Seq<RecordView>,
)
    requires
        a.to_multiset() == b.to_multiset(),
        keys_differ(a),
    ensures
        car_of(commit, a) is Err <==> exists|i: int|
            0 <= i < a.len() && ipld::dag_cbor((#[trigger] a[i]).record) is None,
        car_of(commit, a) is Err <==> car_of(commit, b) is Err,
        car_of(commit, a) is Ok ==> car_of(commit, a) == car_of(commit, b),
{
    lemma_same_records(a, b);
    lemma_first_unencodable(a);
    lemma_first_unencodable(b);
    if let Some(i) = first_unencodable(a) {
        assert(a.contains(a[i]));
        assert(b.contains(a[i]));
        let j = choose|j: int| 0 <= j < b.len() && b[j] == a[i];
        assert(ipld::dag_cbor(b[j].record) is None);
    }
    if let Some(i) = first_unencodable(b) {
        assert(a.contains(b[i]));
        let j = choose|j: int| 0 <= j < a.len() && a[j] == b[i];
        assert(ipld::dag_cbor(a[j].record) is None);
    }
    lemma_keys_stay_different(a, b);
    lemma_one_key_order(a, b);
}

/// The value that a CBOR table has first under a key, if it has one.
pub open spec fn cbor_member(table: CborView, key: Seq<char>) -> Option<CborView> {
    match table {
        CborView::Table(members) => if exists|i: int|
            0 <= i < members.len() && (#[trigger] members[i]).0 == key {
            let i = choose|i: int| is_first(members, i, key);
            Some(members[i].1)
        } else {
            None
        },
        _ => None,
    }
}

/// Whether a member is the first with a key.
pub open spec fn is_first(members: Seq<(Seq<char>, CborView)>, i: int, key: Seq<char>) -> bool {
    &&& 0 <= i < members.len()
    &&& members[i].0 == key
    &&& forall|j: int| 0 <= j < i ==> (#[trigger] members[j]).0 != key
}

proof fn lemma_cbor_member_at(members: Seq<(Seq<char>, CborView)>, i: int)
    requires
        is_first(members, i, members[i].0),
    ensures
        cbor_member(CborView::Table(members), members[i].0) == Some(members[i].1),
{
    let key = members[i].0;
    assert(members[i].0 == key);
    let k = choose|k: int| is_first(members, k, key);
    assert(is_first(members, k, key));
    if k < i {
        assert(members[k].0 != key);
    } else if i < k {
        assert(members[i].0 != key);
    }
}

/// A link is the tag 42 around the CID's bytes behind a byte of zero, so that the
/// CID can be read out of it.
pub proof fn law_links_hold_their_cid(cid: Seq<u8>)
    ensures
        ipld::link_view(cid) matches CborView::Tagged(tag, bytes) && tag == 42 && bytes.len() == cid.len()
            + 1 && bytes[0] == 0 && bytes.skip(1) == cid,
{
    assert((seq![0u8] + cid).skip(1) =~= cid);
}

/// A block of an archive stands behind its CID, and is read behind it.
pub proof fn law_blocks_stand_behind_their_cid(block: Seq<u8>)
    ensures
        addressed(block).take(block_cid(block).len() as int) == block_cid(block),
        addressed(block).skip(block_cid(block).len() as int) == block,
        block_cid(block) == ipld::cid_bytes(0x71, block),
{
    assert(addressed(block).take(block_cid(block).len() as int) =~= block_cid(block));
    assert(addressed(block).skip(block_cid(block).len() as int) =~= block);
}

/// The commit that an archive tells of is its commit: behind the header stands a
/// table that holds the version, the hash, the key, the tag and the revision, each
/// under its own name, and no signature.
pub proof fn law_archives_tell_their_commit(commit: CommitView, records: Seq<RecordView>)
    ensures
        car_parts(commit, records)[1] == addressed(ipld::cbor_rendered(commit_cbor(commit))),
        cbor_member(commit_cbor(commit), "ver"@) == Some(CborView::Unsigned(commit.ver as u64)),
        cbor_member(commit_cbor(commit), "hash"@) == Some(CborView::Bytes(commit.hash)),
        cbor_member(commit_cbor(commit), "ikm"@) == Some(CborView::Bytes(commit.ikm)),
        cbor_member(commit_cbor(commit), "mac"@) == Some(CborView::Bytes(commit.mac)),
        cbor_member(commit_cbor(commit), "rev"@) == Some(CborView::Text(commit.rev)),
        cbor_member(commit_cbor(commit), "sig"@) is None,
{
    reveal_strlit("ver");
    reveal_strlit("hash");
    reveal_strlit("ikm");
    reveal_strlit("mac");
    reveal_strlit("rev");
    reveal_strlit("sig");
    assert("ver"@[0] == 'v' && "hash"@[0] == 'h' && "ikm"@[0] == 'i');
    assert("mac"@[0] == 'm' && "rev"@[0] == 'r' && "sig"@[0] == 's');
    let members = commit_cbor(commit)->Table_0;
    assert forall|i: int| 0 <= i < members.len() implies is_first(members, i, #[trigger] members[i].0) by {}
    assert forall|i: int| 0 <= i < members.len() implies cbor_member(
        commit_cbor(commit),
        #[trigger] members[i].0,
    ) == Some(members[i].1) by {
        lemma_cbor_member_at(members, i);
    }
    lemma_tells(commit);
}

proof fn lemma_tells(commit: CommitView)
    ensures
        ({
            let members = commit_cbor(commit)->Table_0;
            &&& exists|i: int| 0 <= i < members.len() && #[trigger] members[i] == ("ver"@, CborView::Unsigned(commit.ver as u64))
            &&& exists|i: int| 0 <= i < members.len() && #[trigger] members[i] == ("hash"@, CborView::Bytes(commit.hash))
            &&& exists|i: int| 0 <= i < members.len() && #[trigger] members[i] == ("ikm"@, CborView::Bytes(commit.ikm))
            &&& exists|i: int| 0 <= i < members.len() && #[trigger] members[i] == ("mac"@, CborView::Bytes(commit.mac))
            &&& exists|i: int| 0 <= i < members.len() && #[trigger] members[i] == ("rev"@, CborView::Text(commit.rev))
        }),
{
    let members = commit_cbor(commit)->Table_0;
    assert(members[0].0 == members[0].0 && members[1].0 == members[1].0 && members[2].0 == members[2].0);
    assert(members[3].0 == members[3].0 && members[4].0 == members[4].0);
}

/// The header of an archive is of version 1 and leads to the commit and to the
/// index, in this order, by the CIDs that their blocks stand behind.
pub proof fn law_headers_lead_to_commit_and_index(commit: CommitView, records: Seq<RecordView>)
    ensures
        ({
            let commit_cid = block_cid(ipld::cbor_rendered(commit_cbor(commit)));
            let index_cid = block_cid(ipld::cbor_rendered(index_of(in_key_order(records))));
            let header = header_cbor(commit_cid, index_cid);
            &&& car_parts(commit, records)[0] == ipld::cbor_rendered(header)
            &&& cbor_member(header, "version"@) == Some(CborView::Unsigned(1))
            &&& cbor_member(header, "roots"@) matches Some(CborView::List(roots)) && roots.len() == 2
                && roots[0] == ipld::link_view(commit_cid) && roots[1] == ipld::link_view(index_cid)
            &&& car_parts(commit, records)[1].take(commit_cid.len() as int) == commit_cid
            &&& car_parts(commit, records)[2].take(index_cid.len() as int) == index_cid
        }),
{
    reveal_strlit("version");
    reveal_strlit("roots");
    let commit_block = ipld::cbor_rendered(commit_cbor(commit));
    let index_block = ipld::cbor_rendered(index_of(in_key_order(records)));
    let header = header_cbor(block_cid(commit_block), block_cid(index_block));
    let members = header->Table_0;
    assert(members[0].0 == "version"@ && members[1].0 == "roots"@);
    assert("version"@.len() == 7 && "roots"@.len() == 5);
    assert(is_first(members, 0, "version"@) && is_first(members, 1, "roots"@));
    lemma_cbor_member_at(members, 0);
    lemma_cbor_member_at(members, 1);
    law_blocks_stand_behind_their_cid(commit_block);
    law_blocks_stand_behind_their_cid(index_block);
}

/// Whoever looks a record up in an archive's index, under its collection and key,
/// finds the link to the block that holds the record, which is among the archive's
/// blocks.
pub proof fn law_indexes_lead_to_the_records(commit: CommitView, records: Seq<RecordView>, i: int)
    requires
        keys_differ(records),
        0 <= i < records.len(),
    ensures
        cbor_member(
            index_of(in_key_order(records)),
            records[i].collection + "/"@ + records[i].rkey,
        ) == Some(ipld::link_view(block_cid(record_block(records[i])))),
        car_parts(commit, records).contains(addressed(record_block(records[i]))),
        ipld::dag_cbor(records[i].record) is Some ==> ipld::dag_cbor(records[i].record) == Some(
            record_block(records[i]),
        ),
        car_parts(commit, records).len() == records.len() + 3,
{
    let sorted = in_key_order(records);
    law_archive_holds_every_record(records);
    lemma_in_key_order(records);
    lemma_keys_differ(records);
    order::lemma_sorted_keys(record_keys(records));
    assert(sorted.contains(records[i]));
    let k = choose|k: int| 0 <= k < sorted.len() && sorted[k] == records[i];
    let members = index_of(sorted)->Table_0;
    let key = record_key(records[i]);
    assert(members[k].0 == key);
    assert(is_first(members, k, key)) by {
        assert forall|j: int| 0 <= j < k implies (#[trigger] members[j]).0 != key by {
            assert(text::bytes_before(record_keys(sorted)[j], record_keys(sorted)[k]));
            text::lemma_bytes_irreflexive(record_keys(sorted)[k]);
        }
    }
    lemma_cbor_member_at(members, k);
    let parts = car_parts(commit, records);
    assert(parts[3 + k] == addressed(record_block(sorted[k])));
}

} // verus!
