//! What the archive writer and reader promise together.
use vstd::prelude::*;
use vstd::utf8::*;
use crate::crc::spec_crc32;
use crate::le::{le_u32_at, le_u64_at, lemma_u32_le_at, lemma_u64_le_at, u32_le, u64_le};
use crate::pak::{
    blob_offset, blob_region, entry_blob, find_entry, find_from, kind_of_tag, kind_tag,
    pak_bytes, pak_magic, parse_record, parse_toc, spec_pak_get, spec_parse_pak, toc_record,
    toc_records, verify_from, written_entries, written_entry, BlobView, EntryView, HEADER_LEN,
    VERSION,
};

verus! {

broadcast use {vstd::utf8::encode_utf8_decode_utf8, vstd::utf8::encode_utf8_valid_utf8};

/// Blobs the archive format can hold: at most `u32::MAX` of them, each name
/// at most `u32::MAX` bytes, and the whole archive addressable by `u64`.
pub open spec fn packable(blobs: Seq<BlobView>) -> bool {
    &&& blobs.len() <= u32::MAX
    &&& forall|i: int| 0 <= i < blobs.len() ==> encode_utf8(#[trigger] blobs[i].0).len() <= u32::MAX
    &&& pak_bytes(blobs).len() <= u64::MAX
}

/// The first staged blob called `name`, if any.
pub open spec fn first_blob_named(blobs: Seq<BlobView>, name: Seq<char>) -> Option<Seq<u8>>
    decreases blobs.len(),
{
    if blobs.len() == 0 {
        None
    } else if blobs[0].0 == name {
        Some(blobs[0].2)
    } else {
        first_blob_named(blobs.drop_first(), name)
    }
}

proof fn lemma_region_prefix(blobs: Seq<BlobView>, m: int)
    requires
        0 <= m <= blobs.len(),
    ensures
        blob_region(blobs.take(m)) == blob_region(blobs).subrange(
            0,
            blob_region(blobs.take(m)).len() as int,
        ),
        blob_region(blobs.take(m)).len() <= blob_region(blobs).len(),
    decreases blobs.len(),
{
    if m == blobs.len() {
        assert(blobs.take(m) =~= blobs);
    } else {
        assert(blobs.drop_last().take(m) =~= blobs.take(m));
        lemma_region_prefix(blobs.drop_last(), m);
        let r = blob_region(blobs.drop_last());
        assert(blob_region(blobs) == r + blobs.last().2);
        assert((r + blobs.last().2).subrange(0, blob_region(blobs.take(m)).len() as int)
            =~= r.subrange(0, blob_region(blobs.take(m)).len() as int));
    }
}

proof fn lemma_blob_in_region(blobs: Seq<BlobView>, i: int)
    requires
        0 <= i < blobs.len(),
    ensures
        blob_region(blobs).subrange(
            blob_region(blobs.take(i)).len() as int,
            (blob_region(blobs.take(i)).len() + blobs[i].2.len()) as int,
        ) == blobs[i].2,
        blob_region(blobs.take(i)).len() + blobs[i].2.len() <= blob_region(blobs).len(),
{
    lemma_region_prefix(blobs, i + 1);
    assert(blobs.take(i + 1).drop_last() =~= blobs.take(i));
    assert(blobs.take(i + 1).last() == blobs[i]);
    let a = blob_region(blobs.take(i));
    let full = blob_region(blobs);
    assert(blob_region(blobs.take(i + 1)) == a + blobs[i].2);
    assert(full.subrange(a.len() as int, (a.len() + blobs[i].2.len()) as int) =~= (a + blobs[i].2).subrange(
        a.len() as int,
        (a.len() + blobs[i].2.len()) as int,
    ));
}

proof fn lemma_toc_prefix(es: Seq<EntryView>, m: int, n: int)
    requires
        0 <= m <= n,
    ensures
        toc_records(es, m) == toc_records(es, n).subrange(0, toc_records(es, m).len() as int),
        toc_records(es, m).len() <= toc_records(es, n).len(),
    decreases n,
{
    if m < n {
        lemma_toc_prefix(es, m, n - 1);
        let a = toc_records(es, n - 1);
        assert(toc_records(es, n) == a + toc_record(es[n - 1]));
        assert((a + toc_record(es[n - 1])).subrange(0, toc_records(es, m).len() as int)
            =~= a.subrange(0, toc_records(es, m).len() as int));
    }
}

proof fn lemma_record_in_toc(es: Seq<EntryView>, i: int, n: int)
    requires
        0 <= i < n,
    ensures
        toc_records(es, n).subrange(
            toc_records(es, i).len() as int,
            (toc_records(es, i).len() + toc_record(es[i]).len()) as int,
        ) == toc_record(es[i]),
        toc_records(es, i + 1).len() == toc_records(es, i).len() + toc_record(es[i]).len(),
        toc_records(es, i + 1).len() <= toc_records(es, n).len(),
{
    lemma_toc_prefix(es, i + 1, n);
    let a = toc_records(es, i);
    let r = toc_record(es[i]);
    assert(toc_records(es, i + 1) == a + r);
    assert(toc_records(es, n).subrange(a.len() as int, (a.len() + r.len()) as int) =~= (a + r).subrange(
        a.len() as int,
        (a.len() + r.len()) as int,
    ));
}

#[verifier::rlimit(80)]
#[verifier::spinoff_prover]
proof fn lemma_parse_record(b: Seq<u8>, c: int, e: EntryView)
    requires
        0 <= c,
        c + toc_record(e).len() <= b.len(),
        b.subrange(c, c + toc_record(e).len()) == toc_record(e),
        encode_utf8(e.name).len() <= u32::MAX,
        e.offset + e.length <= b.len(),
        b.len() <= u64::MAX,
    ensures
        parse_record(b, c) == Ok::<(EntryView, int), crate::pak::PakError>(
            (e, c + toc_record(e).len()),
        ),
{
    let name = encode_utf8(e.name);
    let nl = name.len() as int;
    let rec = toc_record(e);
    assert(rec.len() == nl + 25);
    let sub = b.subrange(c, c + rec.len());
    assert(b.subrange(c, c + 4) =~= rec.subrange(0, 4));
    assert(rec.subrange(0, 4) =~= u32_le(nl as u32));
    lemma_u32_le_at(b, c, nl as u32);
    assert(b.subrange(c + 4, c + 4 + nl) =~= rec.subrange(4, 4 + nl));
    assert(rec.subrange(4, 4 + nl) =~= name);
    assert(b[c + 4 + nl] == rec[4 + nl]);
    assert(rec[4 + nl] == kind_tag(e.kind));
    assert(b.subrange(c + 5 + nl, c + 13 + nl) =~= rec.subrange(5 + nl, 13 + nl));
    assert(rec.subrange(5 + nl, 13 + nl) =~= u64_le(e.offset));
    lemma_u64_le_at(b, c + 5 + nl, e.offset);
    assert(b.subrange(c + 13 + nl, c + 21 + nl) =~= rec.subrange(13 + nl, 21 + nl));
    assert(rec.subrange(13 + nl, 21 + nl) =~= u64_le(e.length));
    lemma_u64_le_at(b, c + 13 + nl, e.length);
    assert(b.subrange(c + 21 + nl, c + 25 + nl) =~= rec.subrange(21 + nl, 25 + nl));
    assert(rec.subrange(21 + nl, 25 + nl) =~= u32_le(e.crc32));
    lemma_u32_le_at(b, c + 21 + nl, e.crc32);
    assert(kind_of_tag(kind_tag(e.kind)) == Some(e.kind));
}

#[verifier::rlimit(80)]
#[verifier::spinoff_prover]
proof fn lemma_parse_toc_from(b: Seq<u8>, p: int, es: Seq<EntryView>, i: int)
    requires
        0 <= p,
        0 <= i <= es.len(),
        p + toc_records(es, es.len() as int).len() <= b.len(),
        b.subrange(p, p + toc_records(es, es.len() as int).len()) == toc_records(
            es,
            es.len() as int,
        ),
        forall|j: int| 0 <= j < es.len() ==> encode_utf8(#[trigger] es[j].name).len() <= u32::MAX,
        forall|j: int| 0 <= j < es.len() ==> (#[trigger] es[j]).offset + es[j].length <= b.len(),
        b.len() <= u64::MAX,
    ensures
        parse_toc(b, p + toc_records(es, i).len(), (es.len() - i) as nat) == Ok::<
            Seq<EntryView>,
            crate::pak::PakError,
        >(es.subrange(i, es.len() as int)),
    decreases es.len() - i,
{
    let n = es.len() as int;
    if i == n {
        assert(es.subrange(n, n) =~= Seq::<EntryView>::empty());
    } else {
        lemma_record_in_toc(es, i, n);
        let li = toc_records(es, i).len() as int;
        let r = toc_record(es[i]);
        let t = toc_records(es, n);
        assert(b.subrange(p + li, p + li + r.len()) =~= t.subrange(li, li + r.len()));
        lemma_parse_record(b, p + li, es[i]);
        lemma_parse_toc_from(b, p, es, i + 1);
        assert(es.subrange(i, n) =~= seq![es[i]] + es.subrange(i + 1, n));
    }
}

#[verifier::rlimit(80)]
#[verifier::spinoff_prover]
proof fn lemma_pak_layout(blobs: Seq<BlobView>)
    requires
        blobs.len() <= u32::MAX,
        pak_bytes(blobs).len() <= u64::MAX,
    ensures
        ({
            let b = pak_bytes(blobs);
            let r = blob_region(blobs);
            let t = toc_records(written_entries(blobs), blobs.len() as int);
            let p = HEADER_LEN + r.len();
            &&& b.len() == p + 4 + t.len() + 8
            &&& b.subrange(0, 7) == pak_magic()
            &&& le_u32_at(b, 7) == VERSION
            &&& le_u64_at(b, b.len() - 8) == p
            &&& le_u32_at(b, p) == blobs.len()
            &&& b.subrange(p + 4, p + 4 + t.len()) == t
            &&& b.subrange(HEADER_LEN as int, p) == r
        }),
{
    let b = pak_bytes(blobs);
    let r = blob_region(blobs);
    let es = written_entries(blobs);
    let n = blobs.len() as int;
    let t = toc_records(es, n);
    let p = HEADER_LEN + r.len();
    let head = pak_magic() + u32_le(VERSION as u32);
    assert(b == head + r + u32_le(n as u32) + t + u64_le(p as u64));
    assert(b.subrange(0, 7) =~= pak_magic());
    assert(b.subrange(7, 11) =~= u32_le(VERSION as u32));
    lemma_u32_le_at(b, 7, VERSION);
    assert(b.subrange(b.len() - 8, b.len() as int) =~= u64_le(p as u64));
    lemma_u64_le_at(b, b.len() - 8, p as u64);
    assert(b.subrange(p, p + 4) =~= u32_le(n as u32));
    lemma_u32_le_at(b, p, n as u32);
    assert(b.subrange(p + 4, p + 4 + t.len()) =~= t);
    assert(b.subrange(HEADER_LEN as int, p) =~= r);
}

proof fn lemma_blob_positions(blobs: Seq<BlobView>, b: Seq<u8>)
    requires
        b.subrange(HEADER_LEN as int, HEADER_LEN + blob_region(blobs).len()) == blob_region(blobs),
        HEADER_LEN + blob_region(blobs).len() <= b.len(),
        b.len() <= u64::MAX,
    ensures
        forall|i: int|
            0 <= i < blobs.len() ==> entry_blob(b, #[trigger] written_entry(blobs, i))
                == blobs[i].2 && written_entry(blobs, i).offset + written_entry(blobs, i).length
                <= b.len(),
{
    let r = blob_region(blobs);
    assert forall|i: int| 0 <= i < blobs.len() implies entry_blob(
        b,
        #[trigger] written_entry(blobs, i),
    ) == blobs[i].2 && written_entry(blobs, i).offset + written_entry(blobs, i).length
        <= b.len() by {
        lemma_blob_in_region(blobs, i);
        let a = blob_region(blobs.take(i)).len() as int;
        let l = blobs[i].2.len() as int;
        assert(blob_offset(blobs, i) == HEADER_LEN + a);
        assert(b.subrange(HEADER_LEN + a, HEADER_LEN + a + l) =~= r.subrange(a, a + l));
    }
}

/// Reading back what the writer wrote recovers exactly the entries it
/// recorded, and each entry designates the very bytes that were staged.
pub proof fn lemma_pak_roundtrip(blobs: Seq<BlobView>)
    requires
        packable(blobs),
    ensures
        spec_parse_pak(pak_bytes(blobs)) == Ok::<Seq<EntryView>, crate::pak::PakError>(
            written_entries(blobs),
        ),
        forall|i: int|
            0 <= i < blobs.len() ==> entry_blob(pak_bytes(blobs), #[trigger] written_entry(blobs, i))
                == blobs[i].2,
{
    let b = pak_bytes(blobs);
    let r = blob_region(blobs);
    let es = written_entries(blobs);
    let n = blobs.len() as int;
    let t = toc_records(es, n);
    let p = HEADER_LEN + r.len();
    lemma_pak_layout(blobs);
    lemma_blob_positions(blobs, b);
    assert forall|j: int| 0 <= j < es.len() implies encode_utf8(#[trigger] es[j].name).len()
        <= u32::MAX by {
        assert(es[j] == written_entry(blobs, j));
    }
    assert forall|j: int| 0 <= j < es.len() implies (#[trigger] es[j]).offset + es[j].length
        <= b.len() by {
        assert(es[j] == written_entry(blobs, j));
    }
    assert(toc_records(es, 0).len() == 0);
    lemma_parse_toc_from(b, p + 4, es, 0);
    assert(es.subrange(0, n) =~= es);
}

proof fn lemma_find_written(blobs: Seq<BlobView>, name: Seq<char>, from: int)
    requires
        0 <= from <= blobs.len(),
    ensures
        match find_from(written_entries(blobs), name, from) {
            None => first_blob_named(blobs.subrange(from, blobs.len() as int), name) is None,
            Some(i) => 0 <= i < blobs.len() && first_blob_named(
                blobs.subrange(from, blobs.len() as int),
                name,
            ) == Some(blobs[i].2),
        },
    decreases blobs.len() - from,
{
    let rest = blobs.subrange(from, blobs.len() as int);
    if from < blobs.len() {
        assert(rest[0] == blobs[from]);
        assert(rest.drop_first() =~= blobs.subrange(from + 1, blobs.len() as int));
        assert(written_entries(blobs)[from] == written_entry(blobs, from));
        lemma_find_written(blobs, name, from + 1);
    }
}

/// Looking a name up in a freshly written archive gives the first blob staged
/// under that name, byte for byte (its CRC-32 always checks out).
pub proof fn lemma_pak_read_back(blobs: Seq<BlobView>, name: Seq<char>)
    requires
        packable(blobs),
    ensures
        spec_parse_pak(pak_bytes(blobs)) == Ok::<Seq<EntryView>, crate::pak::PakError>(
            written_entries(blobs),
        ),
        spec_pak_get(pak_bytes(blobs), written_entries(blobs), name) == first_blob_named(
            blobs,
            name,
        ),
{
    lemma_pak_roundtrip(blobs);
    lemma_find_written(blobs, name, 0);
    assert(blobs.subrange(0, blobs.len() as int) =~= blobs);
    match find_entry(written_entries(blobs), name) {
        None => {},
        Some(i) => {
            assert(written_entries(blobs)[i] == written_entry(blobs, i));
        },
    }
}


proof fn lemma_written_verify_from(blobs: Seq<BlobView>, from: int)
    requires
        packable(blobs),
        0 <= from,
        forall|i: int|
            0 <= i < blobs.len() ==> entry_blob(pak_bytes(blobs), #[trigger] written_entry(blobs, i))
                == blobs[i].2,
    ensures
        verify_from(pak_bytes(blobs), written_entries(blobs), from) == Ok::<(), crate::pak::PakError>(
            (),
        ),
    decreases blobs.len() - from,
{
    if from < blobs.len() {
        assert(written_entries(blobs)[from] == written_entry(blobs, from));
        lemma_written_verify_from(blobs, from + 1);
    }
}

/// A freshly written archive passes the integrity check: every entry's
/// stored CRC-32 matches its bytes.
pub proof fn lemma_pak_written_verifies(blobs: Seq<BlobView>)
    requires
        packable(blobs),
    ensures
        verify_from(pak_bytes(blobs), written_entries(blobs), 0) == Ok::<(), crate::pak::PakError>(()),
{
    lemma_pak_roundtrip(blobs);
    lemma_written_verify_from(blobs, 0);
}

} // verus!
