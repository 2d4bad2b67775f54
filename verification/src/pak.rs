//! The `.p3dpak` archive: named asset blobs back to back, a trailing table of
//! contents with a CRC-32 per entry, and an 8-byte footer pointing at the TOC.
//!
//! Layout: magic `P3DPAK\0` (7 bytes), version `u32` LE, the blob region, the
//! TOC (`u32` entry count, then per entry: `u32` name length, UTF-8 name,
//! `u8` kind, `u64` offset, `u64` length, `u32` CRC-32), then the TOC offset
//! as `u64` LE in the last 8 bytes.
use vstd::prelude::*;
use vstd::utf8::*;
use crate::crc::{crc32, spec_crc32};
use crate::le::{
    get_u32_le, get_u64_le, le_u32_at, le_u64_at, push_u32_le, push_u64_le, u32_le, u64_le,
};
use crate::text::{bytes_have_prefix, str_eq, str_from_utf8};

verus! {

broadcast use {vstd::utf8::encode_utf8_decode_utf8, vstd::utf8::encode_utf8_valid_utf8};

/// Current archive format version.
pub const VERSION: u32 = 1;

/// Length of the fixed header: magic plus version.
pub const HEADER_LEN: usize = 11;

/// The seven magic bytes every archive starts with (`P3DPAK\0`).
pub open spec fn pak_magic() -> Seq<u8> {
    seq![0x50u8, 0x33u8, 0x44u8, 0x50u8, 0x41u8, 0x4Bu8, 0x00u8]
}

/// Archive magic: the first 7 bytes of every `.p3dpak`.
pub fn magic() -> (m: Vec<u8>)
    ensures
        m@ == pak_magic(),
{
    let m = vec![0x50u8, 0x33u8, 0x44u8, 0x50u8, 0x41u8, 0x4Bu8, 0x00u8];
    assert(m@ =~= pak_magic());
    m
}

/// The category of a packed asset, which maps 1:1 to a canonical extension.
#[derive(Clone, Copy, PartialEq, Eq, Debug, Structural)]
pub enum AssetKind {
    /// A compiled BSP world (`.p3dworld`).
    World,
    /// A static/skinned mesh payload (`.p3dmesh`).
    Mesh,
    /// A skeleton + skin binding (`.p3dskin`).
    Skin,
    /// An animation clip (`.p3danim`).
    Anim,
    /// A material description (`.p3dmat`).
    Material,
    /// A texture payload (`.p3dtex`).
    Texture,
    /// Opaque bytes with no engine-defined meaning (`.p3draw`).
    Raw,
}

/// The wire tag of each kind.
pub open spec fn kind_tag(k: AssetKind) -> u8 {
    match k {
        AssetKind::World => 0,
        AssetKind::Mesh => 1,
        AssetKind::Skin => 2,
        AssetKind::Anim => 3,
        AssetKind::Material => 4,
        AssetKind::Texture => 5,
        AssetKind::Raw => 6,
    }
}

/// The kind a wire tag stands for, if any.
pub open spec fn kind_of_tag(t: u8) -> Option<AssetKind> {
    if t == 0 {
        Some(AssetKind::World)
    } else if t == 1 {
        Some(AssetKind::Mesh)
    } else if t == 2 {
        Some(AssetKind::Skin)
    } else if t == 3 {
        Some(AssetKind::Anim)
    } else if t == 4 {
        Some(AssetKind::Material)
    } else if t == 5 {
        Some(AssetKind::Texture)
    } else if t == 6 {
        Some(AssetKind::Raw)
    } else {
        None
    }
}

/// The canonical extension of each kind.
pub open spec fn kind_extension(k: AssetKind) -> Seq<char> {
    match k {
        AssetKind::World => ".p3dworld"@,
        AssetKind::Mesh => ".p3dmesh"@,
        AssetKind::Skin => ".p3dskin"@,
        AssetKind::Anim => ".p3danim"@,
        AssetKind::Material => ".p3dmat"@,
        AssetKind::Texture => ".p3dtex"@,
        AssetKind::Raw => ".p3draw"@,
    }
}

impl AssetKind {
    /// The canonical file extension for this kind.
    pub fn extension(self) -> (r: &'static str)
        ensures
            r@ == kind_extension(self),
    {
        match self {
            AssetKind::World => ".p3dworld",
            AssetKind::Mesh => ".p3dmesh",
            AssetKind::Skin => ".p3dskin",
            AssetKind::Anim => ".p3danim",
            AssetKind::Material => ".p3dmat",
            AssetKind::Texture => ".p3dtex",
            AssetKind::Raw => ".p3draw",
        }
    }

    /// Stable wire tag stored in the TOC.
    pub fn to_u8(self) -> (t: u8)
        ensures
            t == kind_tag(self),
    {
        match self {
            AssetKind::World => 0,
            AssetKind::Mesh => 1,
            AssetKind::Skin => 2,
            AssetKind::Anim => 3,
            AssetKind::Material => 4,
            AssetKind::Texture => 5,
            AssetKind::Raw => 6,
        }
    }

    /// The kind of a wire tag; an unknown tag is an error.
    pub fn from_u8(tag: u8) -> (r: Result<AssetKind, PakError>)
        ensures
            kind_of_tag(tag) matches Some(k) ==> r == Ok::<AssetKind, PakError>(k),
            kind_of_tag(tag) is None ==> r == Err::<AssetKind, PakError>(PakError::UnknownKind(tag)),
    {
        match tag {
            0 => Ok(AssetKind::World),
            1 => Ok(AssetKind::Mesh),
            2 => Ok(AssetKind::Skin),
            3 => Ok(AssetKind::Anim),
            4 => Ok(AssetKind::Material),
            5 => Ok(AssetKind::Texture),
            6 => Ok(AssetKind::Raw),
            other => Err(PakError::UnknownKind(other)),
        }
    }
}

/// Why an archive, or a lookup in it, was rejected.
#[derive(Clone, Copy, PartialEq, Eq, Debug, Structural)]
pub enum PakError {
    /// Fewer bytes than header plus footer (the length is given).
    TooSmall(usize),
    /// The first seven bytes are not the magic.
    BadMagic,
    /// A version other than the supported one.
    UnsupportedVersion(u32),
    /// The footer points past the end of the buffer.
    TocOffsetOutOfRange,
    /// A TOC field runs past the end of the buffer.
    Truncated,
    /// An entry name is not valid UTF-8.
    NameNotUtf8,
    /// An entry carries an unknown kind tag.
    UnknownKind(u8),
    /// `offset + length` of an entry does not fit in 64 bits.
    LengthOverflow,
    /// An entry's blob range runs past the end of the buffer.
    BlobOutOfBounds,
    /// A blob's bytes do not match the stored CRC-32 (`stored`, `actual`).
    CrcMismatch(u32, u32),
}

/// One entry in a pak's table of contents.
#[derive(Clone, Debug)]
pub struct PakEntry {
    /// Logical asset name (a lookup key; need not be a filesystem path).
    pub name: String,
    /// What kind of asset the blob holds.
    pub kind: AssetKind,
    /// Absolute byte offset of the blob within the archive file.
    pub offset: u64,
    /// Blob length in bytes.
    pub length: u64,
    /// CRC-32 (IEEE) of the blob bytes, for integrity validation.
    pub crc32: u32,
}

/// The mathematical content of a TOC entry.
pub struct EntryView {
    pub name: Seq<char>,
    pub kind: AssetKind,
    pub offset: u64,
    pub length: u64,
    pub crc32: u32,
}

impl View for PakEntry {
    type V = EntryView;

    open spec fn view(&self) -> EntryView {
        EntryView {
            name: self.name@,
            kind: self.kind,
            offset: self.offset,
            length: self.length,
            crc32: self.crc32,
        }
    }
}

/// The views of a sequence of entries.
pub open spec fn entries_view(es: Seq<PakEntry>) -> Seq<EntryView> {
    Seq::new(es.len(), |i: int| es[i]@)
}

// ---------------------------------------------------------------------------
// Writer
// ---------------------------------------------------------------------------

/// A staged blob: name, kind and bytes.
pub type BlobView = (Seq<char>, AssetKind, Seq<u8>);

/// The blob region: every staged blob's bytes back to back.
pub open spec fn blob_region(blobs: Seq<BlobView>) -> Seq<u8>
    decreases blobs.len(),
{
    if blobs.len() == 0 {
        Seq::empty()
    } else {
        blob_region(blobs.drop_last()) + blobs.last().2
    }
}

/// Absolute offset of blob `i` in the archive.
pub open spec fn blob_offset(blobs: Seq<BlobView>, i: int) -> int {
    HEADER_LEN + blob_region(blobs.take(i)).len()
}

/// The TOC entry the writer records for blob `i`.
pub open spec fn written_entry(blobs: Seq<BlobView>, i: int) -> EntryView {
    EntryView {
        name: blobs[i].0,
        kind: blobs[i].1,
        offset: blob_offset(blobs, i) as u64,
        length: blobs[i].2.len() as u64,
        crc32: spec_crc32(blobs[i].2),
    }
}

/// All TOC entries the writer records.
pub open spec fn written_entries(blobs: Seq<BlobView>) -> Seq<EntryView> {
    Seq::new(blobs.len(), |i: int| written_entry(blobs, i))
}

/// The serialized form of one TOC entry.
pub open spec fn toc_record(e: EntryView) -> Seq<u8> {
    let name = encode_utf8(e.name);
    u32_le(name.len() as u32) + name + seq![kind_tag(e.kind)] + u64_le(e.offset) + u64_le(e.length)
        + u32_le(e.crc32)
}

/// The serialized TOC records of the first `n` entries.
pub open spec fn toc_records(es: Seq<EntryView>, n: int) -> Seq<u8>
    decreases n,
{
    if n <= 0 {
        Seq::empty()
    } else {
        toc_records(es, n - 1) + toc_record(es[n - 1])
    }
}

/// The complete archive the writer produces for `blobs`.
pub open spec fn pak_bytes(blobs: Seq<BlobView>) -> Seq<u8> {
    let region = blob_region(blobs);
    let es = written_entries(blobs);
    pak_magic() + u32_le(VERSION as u32) + region + u32_le(blobs.len() as u32) + toc_records(
        es,
        es.len() as int,
    ) + u64_le((HEADER_LEN + region.len()) as u64)
}

/// Append the serialized TOC record of `e`.
fn push_toc_record(out: &mut Vec<u8>, e: &PakEntry)
    ensures
        final(out)@ == old(out)@ + toc_record(e@),
{
    let name_bytes = e.name.as_str().as_bytes();
    push_u32_le(out, name_bytes.len() as u32);
    let mut nb = vstd::slice::slice_to_vec(name_bytes);
    out.append(&mut nb);
    out.push(e.kind.to_u8());
    push_u64_le(out, e.offset);
    push_u64_le(out, e.length);
    push_u32_le(out, e.crc32);
    assert(out@ =~= old(out)@ + toc_record(e@));
}

/// Accumulates named blobs and serializes them into a `.p3dpak`.
pub struct PakWriter {
    blobs: Vec<(String, AssetKind, Vec<u8>)>,
}

impl View for PakWriter {
    type V = Seq<BlobView>;

    closed spec fn view(&self) -> Seq<BlobView> {
        Seq::new(self.blobs@.len(), |i: int| (self.blobs@[i].0@, self.blobs@[i].1, self.blobs@[i].2@))
    }
}

impl Default for PakWriter {
    /// An empty writer.
    fn default() -> (w: Self)
        ensures
            w@ == Seq::<BlobView>::empty(),
    {
        PakWriter::new()
    }
}

impl PakWriter {
    /// Create an empty writer.
    pub fn new() -> (w: Self)
        ensures
            w@ == Seq::<BlobView>::empty(),
    {
        let w = PakWriter { blobs: Vec::new() };
        assert(w@ =~= Seq::<BlobView>::empty());
        w
    }

    /// Stage a named blob of the given `kind`. The bytes are copied.
    pub fn add(&mut self, name: &str, kind: AssetKind, bytes: &[u8])
        ensures
            final(self)@ == old(self)@.push((name@, kind, bytes@)),
    {
        let n = name.to_owned();
        let b = vstd::slice::slice_to_vec(bytes);
        self.blobs.push((n, kind, b));
        assert(self@ =~= old(self)@.push((name@, kind, bytes@)));
    }

    /// Serialize every staged blob into a fresh `.p3dpak` byte vector.
    pub fn write_to_vec(&self) -> (out: Vec<u8>)
        ensures
            out@ == pak_bytes(self@),
    {
        let ghost blobs = self@;
        let mut out = magic();
        push_u32_le(&mut out, VERSION);
        let mut entries: Vec<PakEntry> = Vec::new();
        let mut i: usize = 0;
        assert(blobs.take(0) =~= Seq::<BlobView>::empty());
        while i < self.blobs.len()
            invariant
                blobs == self@,
                i <= blobs.len(),
                out@ == pak_magic() + u32_le(VERSION as u32) + blob_region(blobs.take(i as int)),
                entries@.len() == i,
                forall|j: int| 0 <= j < i ==> #[trigger] entries@[j]@ == written_entry(blobs, j),
            decreases blobs.len() - i,
        {
            let offset = out.len() as u64;
            let bytes = &self.blobs[i].2;
            let crc = crc32(bytes.as_slice());
            let mut copy = bytes.clone();
            let ghost before = out@;
            out.append(&mut copy);
            proof {
                assert(blobs.take(i + 1).drop_last() =~= blobs.take(i as int));
                assert(blobs.take(i + 1).last() == blobs[i as int]);
                assert(out@ =~= pak_magic() + u32_le(VERSION as u32) + blob_region(
                    blobs.take(i + 1),
                ));
            }
            entries.push(
                PakEntry {
                    name: self.blobs[i].0.clone(),
                    kind: self.blobs[i].1,
                    offset,
                    length: bytes.len() as u64,
                    crc32: crc,
                },
            );
            i = i + 1;
        }
        assert(blobs.take(blobs.len() as int) =~= blobs);
        let toc_offset = out.len() as u64;
        let ghost es = written_entries(blobs);
        push_u32_le(&mut out, entries.len() as u32);
        let ghost toc_start = out@;
        let mut k: usize = 0;
        while k < entries.len()
            invariant
                es == written_entries(blobs),
                entries@.len() == es.len(),
                forall|j: int| 0 <= j < es.len() ==> #[trigger] entries@[j]@ == es[j],
                k <= entries@.len(),
                out@ == toc_start + toc_records(es, k as int),
            decreases entries@.len() - k,
        {
            push_toc_record(&mut out, &entries[k]);
            proof {
                assert(entries@[k as int]@ == es[k as int]);
                assert(out@ =~= toc_start + toc_records(es, k + 1));
            }
            k = k + 1;
        }
        push_u64_le(&mut out, toc_offset);
        out
    }
}

} // verus!

verus! {

// ---------------------------------------------------------------------------
// Reader
// ---------------------------------------------------------------------------

/// The TOC record that starts at `cur`: the entry and the position after it.
pub open spec fn parse_record(b: Seq<u8>, cur: int) -> Result<(EntryView, int), PakError> {
    if cur + 4 > b.len() {
        Err(PakError::Truncated)
    } else {
        let name_start = cur + 4;
        let name_end = name_start + le_u32_at(b, cur);
        if name_end > b.len() {
            Err(PakError::Truncated)
        } else if !valid_utf8(b.subrange(name_start, name_end)) {
            Err(PakError::NameNotUtf8)
        } else if name_end >= b.len() {
            Err(PakError::Truncated)
        } else if kind_of_tag(b[name_end]) is None {
            Err(PakError::UnknownKind(b[name_end]))
        } else if name_end + 1 + 8 > b.len() || name_end + 9 + 8 > b.len() || name_end + 17 + 4
            > b.len() {
            Err(PakError::Truncated)
        } else {
            let offset = le_u64_at(b, name_end + 1);
            let length = le_u64_at(b, name_end + 9);
            if offset + length > u64::MAX {
                Err(PakError::LengthOverflow)
            } else if offset + length > b.len() {
                Err(PakError::BlobOutOfBounds)
            } else {
                Ok(
                    (
                        EntryView {
                            name: decode_utf8(b.subrange(name_start, name_end)),
                            kind: kind_of_tag(b[name_end])->0,
                            offset: offset as u64,
                            length: length as u64,
                            crc32: le_u32_at(b, name_end + 17) as u32,
                        },
                        name_end + 21,
                    ),
                )
            }
        }
    }
}

/// `count` consecutive TOC records starting at `cur`.
pub open spec fn parse_toc(b: Seq<u8>, cur: int, count: nat) -> Result<Seq<EntryView>, PakError>
    decreases count,
{
    if count == 0 {
        Ok(Seq::empty())
    } else {
        match parse_record(b, cur) {
            Err(e) => Err(e),
            Ok((e, next)) => match parse_toc(b, next, (count - 1) as nat) {
                Err(err) => Err(err),
                Ok(rest) => Ok(seq![e] + rest),
            },
        }
    }
}

/// What parsing an archive yields: its table of contents, or the first
/// problem met while reading it front to back.
pub open spec fn spec_parse_pak(b: Seq<u8>) -> Result<Seq<EntryView>, PakError> {
    if b.len() < HEADER_LEN + 8 {
        Err(PakError::TooSmall(b.len() as usize))
    } else if b.subrange(0, 7) != pak_magic() {
        Err(PakError::BadMagic)
    } else if le_u32_at(b, 7) != VERSION {
        Err(PakError::UnsupportedVersion(le_u32_at(b, 7) as u32))
    } else {
        let toc = le_u64_at(b, b.len() - 8);
        if toc > b.len() {
            Err(PakError::TocOffsetOutOfRange)
        } else if toc + 4 > b.len() {
            Err(PakError::Truncated)
        } else {
            parse_toc(b, toc + 4, le_u32_at(b, toc) as nat)
        }
    }
}

/// The bytes an entry designates.
pub open spec fn entry_blob(b: Seq<u8>, e: EntryView) -> Seq<u8> {
    b.subrange(e.offset as int, e.offset + e.length)
}

/// Every entry's blob lies inside the archive.
pub open spec fn entries_in_bounds(b: Seq<u8>, es: Seq<EntryView>) -> bool {
    forall|i: int| 0 <= i < es.len() ==> (#[trigger] es[i]).offset + es[i].length <= b.len()
}

/// Every record read from a table of contents lies inside the archive.
proof fn lemma_toc_in_bounds(b: Seq<u8>, cur: int, count: nat)
    ensures
        parse_toc(b, cur, count) matches Ok(es) ==> entries_in_bounds(b, es),
    decreases count,
{
    if count > 0 {
        if let Ok((e, next)) = parse_record(b, cur) {
            lemma_toc_in_bounds(b, next, (count - 1) as nat);
            if let Ok(rest) = parse_toc(b, next, (count - 1) as nat) {
                let es = seq![e] + rest;
                assert forall|i: int| 0 <= i < es.len() implies (#[trigger] es[i]).offset
                    + es[i].length <= b.len() by {
                    if i > 0 {
                        assert(es[i] == rest[i - 1]);
                    }
                }
            }
        }
    }
}

/// A successfully parsed archive designates only bytes it holds: every
/// entry's blob lies inside it.
pub proof fn lemma_parsed_entries_in_bounds(b: Seq<u8>)
    ensures
        spec_parse_pak(b) matches Ok(es) ==> entries_in_bounds(b, es),
{
    if b.len() >= HEADER_LEN + 8 {
        let toc = le_u64_at(b, b.len() - 8);
        lemma_toc_in_bounds(b, toc + 4, le_u32_at(b, toc) as nat);
    }
}

/// The index of the first entry called `name`, searching from `from`.
pub open spec fn find_from(es: Seq<EntryView>, name: Seq<char>, from: int) -> Option<int>
    decreases es.len() - from,
{
    if from < 0 || from >= es.len() {
        None
    } else if es[from].name == name {
        Some(from)
    } else {
        find_from(es, name, from + 1)
    }
}

/// A found index is in range, names the entry, and no earlier one does.
pub proof fn lemma_find_from(es: Seq<EntryView>, name: Seq<char>, from: int)
    requires
        0 <= from,
    ensures
        find_from(es, name, from) matches Some(i) ==> from <= i < es.len() && es[i].name == name
            && forall|j: int| from <= j < i ==> es[j].name != name,
        find_from(es, name, from) is None ==> forall|j: int|
            from <= j < es.len() ==> es[j].name != name,
    decreases es.len() - from,
{
    if from < es.len() && es[from].name != name {
        lemma_find_from(es, name, from + 1);
    }
}

/// The index of the first entry called `name`.
pub open spec fn find_entry(es: Seq<EntryView>, name: Seq<char>) -> Option<int> {
    find_from(es, name, 0)
}

/// What a CRC-checked lookup yields: the blob of the first entry called
/// `name`, if there is one and its bytes match its stored CRC-32.
pub open spec fn spec_pak_get(b: Seq<u8>, es: Seq<EntryView>, name: Seq<char>) -> Option<Seq<u8>> {
    match find_entry(es, name) {
        None => None,
        Some(i) => if spec_crc32(entry_blob(b, es[i])) == es[i].crc32 {
            Some(entry_blob(b, es[i]))
        } else {
            None
        },
    }
}

/// A parsed, in-memory `.p3dpak`. Owns the archive bytes so [`Pak::get`] can
/// hand back borrowed, CRC-verified slices.
pub struct Pak {
    bytes: Vec<u8>,
    entries: Vec<PakEntry>,
}

/// The mathematical content of a parsed archive.
pub struct PakView {
    pub bytes: Seq<u8>,
    pub entries: Seq<EntryView>,
}

impl View for Pak {
    type V = PakView;

    closed spec fn view(&self) -> PakView {
        PakView { bytes: self.bytes@, entries: entries_view(self.entries@) }
    }
}

/// Read the little-endian `u32` at `at`, or report truncation.
fn read_u32(bytes: &[u8], at: usize) -> (r: Result<u32, PakError>)
    ensures
        at + 4 <= bytes@.len() ==> r == Ok::<u32, PakError>(le_u32_at(bytes@, at as int) as u32),
        at + 4 > bytes@.len() ==> r == Err::<u32, PakError>(PakError::Truncated),
{
    if at > bytes.len() || bytes.len() - at < 4 {
        return Err(PakError::Truncated);
    }
    Ok(get_u32_le(bytes, at))
}

/// Read the little-endian `u64` at `at`, or report truncation.
fn read_u64(bytes: &[u8], at: usize) -> (r: Result<u64, PakError>)
    ensures
        at + 8 <= bytes@.len() ==> r == Ok::<u64, PakError>(le_u64_at(bytes@, at as int) as u64),
        at + 8 > bytes@.len() ==> r == Err::<u64, PakError>(PakError::Truncated),
{
    if at > bytes.len() || bytes.len() - at < 8 {
        return Err(PakError::Truncated);
    }
    Ok(get_u64_le(bytes, at))
}

impl Pak {
    #[verifier::type_invariant]
    closed spec fn wf(self) -> bool {
        entries_in_bounds(self.bytes@, entries_view(self.entries@))
    }

    /// Read the TOC record at `cur`.
    fn parse_entry(bytes: &[u8], cur: usize) -> (r: Result<(PakEntry, usize), PakError>)
        ensures
            match (r, parse_record(bytes@, cur as int)) {
                (Ok((e, next)), Ok((se, snext))) => e@ == se && next == snext,
                (Err(x), Err(y)) => x == y,
                _ => false,
            },
    {
        let len = bytes.len();
        let name_len = read_u32(bytes, cur)?;
        let name_start = cur + 4;
        if name_len as usize > len - name_start {
            return Err(PakError::Truncated);
        }
        let name_end = name_start + name_len as usize;
        let name = match str_from_utf8(&bytes[name_start..name_end]) {
            Some(s) => s.to_owned(),
            None => return Err(PakError::NameNotUtf8),
        };
        if name_end >= len {
            return Err(PakError::Truncated);
        }
        let kind = AssetKind::from_u8(bytes[name_end])?;
        let offset = read_u64(bytes, name_end + 1)?;
        let length = read_u64(bytes, name_end + 9)?;
        let crc = read_u32(bytes, name_end + 17)?;
        let end = match offset.checked_add(length) {
            Some(end) => end,
            None => return Err(PakError::LengthOverflow),
        };
        if end > len as u64 {
            return Err(PakError::BlobOutOfBounds);
        }
        Ok((PakEntry { name, kind, offset, length, crc32: crc }, name_end + 21))
    }

    /// Parse a `.p3dpak` from an owned byte buffer. Succeeds exactly when
    /// [`spec_parse_pak`] does, with the entries it gives, and otherwise
    /// reports the same error.
    pub fn parse(bytes: Vec<u8>) -> (r: Result<Pak, PakError>)
        ensures
            match (r, spec_parse_pak(bytes@)) {
                (Ok(p), Ok(es)) => p@.bytes == bytes@ && p@.entries == es,
                (Err(x), Err(y)) => x == y,
                _ => false,
            },
            r matches Ok(p) ==> entries_in_bounds(p@.bytes, p@.entries),
    {
        let len = bytes.len();
        if len < HEADER_LEN + 8 {
            return Err(PakError::TooSmall(len));
        }
        let m = magic();
        if !bytes_have_prefix(bytes.as_slice(), m.as_slice()) {
            return Err(PakError::BadMagic);
        }

        let version = read_u32(bytes.as_slice(), 7)?;
        if version != VERSION {
            return Err(PakError::UnsupportedVersion(version));
        }
        let toc_offset = read_u64(bytes.as_slice(), len - 8)?;
        if toc_offset > len as u64 {
            return Err(PakError::TocOffsetOutOfRange);
        }
        let mut cursor = toc_offset as usize;
        let count = read_u32(bytes.as_slice(), cursor)?;
        cursor = cursor + 4;
        let ghost full = spec_parse_pak(bytes@);
        let mut entries: Vec<PakEntry> = Vec::new();
        let mut k: u32 = 0;
        assert(entries_view(entries@) =~= Seq::<EntryView>::empty());
        while k < count
            invariant
                len == bytes@.len(),
                full == spec_parse_pak(bytes@),
                k <= count,
                entries_in_bounds(bytes@, entries_view(entries@)),
                match parse_toc(bytes@, cursor as int, (count - k) as nat) {
                    Ok(rest) => full == Ok::<Seq<EntryView>, PakError>(entries_view(entries@) + rest),
                    Err(e) => full == Err::<Seq<EntryView>, PakError>(e),
                },
            decreases count - k,
        {
            let (e, next) = Pak::parse_entry(bytes.as_slice(), cursor)?;
            proof {
                let ev = e@;
                assert(parse_record(bytes@, cursor as int) == Ok::<(EntryView, int), PakError>(
                    (ev, next as int),
                ));
                let rest_n = (count - k - 1) as nat;
                assert(parse_toc(bytes@, cursor as int, (count - k) as nat) == match parse_toc(
                    bytes@,
                    next as int,
                    rest_n,
                ) {
                    Err(err) => Err(err),
                    Ok(rest) => Ok(seq![ev] + rest),
                });
            }
            let ghost old_view = entries_view(entries@);
            entries.push(e);
            proof {
                assert(entries_view(entries@) =~= old_view.push(e@));
                match parse_toc(bytes@, next as int, (count - k - 1) as nat) {
                    Ok(rest) => {
                        assert(old_view + (seq![e@] + rest) =~= old_view.push(e@) + rest);
                    },
                    Err(_) => {},
                }
            }
            cursor = next;
            k = k + 1;
        }
        assert(entries_view(entries@) + Seq::<EntryView>::empty() =~= entries_view(entries@));
        Ok(Pak { bytes, entries })
    }
}

} // verus!

verus! {

/// What a lookup that reports failures yields: `Ok(None)` for a missing
/// name, an error for a CRC mismatch, the blob otherwise.
pub open spec fn spec_pak_get_checked(b: Seq<u8>, es: Seq<EntryView>, name: Seq<char>) -> Result<
    Option<Seq<u8>>,
    PakError,
> {
    match find_entry(es, name) {
        None => Ok(None),
        Some(i) => {
            let blob = entry_blob(b, es[i]);
            if spec_crc32(blob) == es[i].crc32 {
                Ok(Some(blob))
            } else {
                Err(PakError::CrcMismatch(es[i].crc32, spec_crc32(blob)))
            }
        },
    }
}

/// The outcome of checking the entries from `from` on, in order.
pub open spec fn verify_from(b: Seq<u8>, es: Seq<EntryView>, from: int) -> Result<(), PakError>
    decreases es.len() - from,
{
    if from < 0 || from >= es.len() {
        Ok(())
    } else {
        let actual = spec_crc32(entry_blob(b, es[from]));
        if actual != es[from].crc32 {
            Err(PakError::CrcMismatch(es[from].crc32, actual))
        } else {
            verify_from(b, es, from + 1)
        }
    }
}

impl Pak {
    /// The table of contents.
    pub fn entries(&self) -> (r: &[PakEntry])
        ensures
            entries_view(r@) == self@.entries,
    {
        self.entries.as_slice()
    }

    /// Whether an entry with `name` exists (ignores CRC).
    pub fn contains(&self, name: &str) -> (r: bool)
        ensures
            r == find_entry(self@.entries, name@) is Some,
    {
        self.entry(name).is_some()
    }

    /// The first entry called `name`.
    fn entry(&self, name: &str) -> (r: Option<&PakEntry>)
        ensures
            match find_entry(self@.entries, name@) {
                None => r is None,
                Some(i) => r matches Some(e) && e@ == self@.entries[i],
            },
    {
        let ghost es = self@.entries;
        let mut i: usize = 0;
        while i < self.entries.len()
            invariant
                es == entries_view(self.entries@),
                i <= es.len(),
                find_entry(es, name@) == find_from(es, name@, i as int),
            decreases es.len() - i,
        {
            if str_eq(self.entries[i].name.as_str(), name) {
                return Some(&self.entries[i]);
            }
            i = i + 1;
        }
        None
    }

    /// The bytes an entry of this archive designates.
    fn blob(&self, e: &PakEntry) -> (r: &[u8])
        requires
            e.offset + e.length <= self@.bytes.len(),
        ensures
            r@ == entry_blob(self@.bytes, e@),
    {
        let _n = self.bytes.len();
        let start = e.offset as usize;
        let end = start + e.length as usize;
        &self.bytes.as_slice()[start..end]
    }

    /// Fetch a blob by name, verifying its CRC-32 first. `None` if the entry
    /// is missing or its stored bytes fail the integrity check.
    pub fn get(&self, name: &str) -> (r: Option<&[u8]>)
        ensures
            match (r, spec_pak_get(self@.bytes, self@.entries, name@)) {
                (Some(x), Some(y)) => x@ == y,
                (None, None) => true,
                _ => false,
            },
    {
        proof {
            use_type_invariant(self);
        }
        let e = self.entry(name)?;
        proof {
            lemma_find_from(self@.entries, name@, 0);
        }
        let blob = self.blob(e);
        if crc32(blob) == e.crc32 {
            Some(blob)
        } else {
            None
        }
    }

    /// Like [`Pak::get`] but reports why a lookup failed: `Ok(None)` for a
    /// missing entry, an error for a CRC mismatch.
    pub fn get_checked(&self, name: &str) -> (r: Result<Option<&[u8]>, PakError>)
        ensures
            match (r, spec_pak_get_checked(self@.bytes, self@.entries, name@)) {
                (Ok(Some(x)), Ok(Some(y))) => x@ == y,
                (Ok(None), Ok(None)) => true,
                (Err(x), Err(y)) => x == y,
                _ => false,
            },
    {
        proof {
            use_type_invariant(self);
        }
        let e = match self.entry(name) {
            Some(e) => e,
            None => return Ok(None),
        };
        proof {
            lemma_find_from(self@.entries, name@, 0);
        }
        let blob = self.blob(e);
        let actual = crc32(blob);
        if actual != e.crc32 {
            return Err(PakError::CrcMismatch(e.crc32, actual));
        }
        Ok(Some(blob))
    }

    /// Verify every entry's CRC-32, reporting the first corrupt entry.
    pub fn verify(&self) -> (r: Result<(), PakError>)
        ensures
            r == verify_from(self@.bytes, self@.entries, 0),
    {
        proof {
            use_type_invariant(self);
        }
        let ghost es = self@.entries;
        let mut i: usize = 0;
        while i < self.entries.len()
            invariant
                es == entries_view(self.entries@),
                entries_in_bounds(self.bytes@, es),
                i <= es.len(),
                verify_from(self.bytes@, es, 0) == verify_from(self.bytes@, es, i as int),
            decreases es.len() - i,
        {
            let e = &self.entries[i];
            assert(es[i as int] == e@);
            let actual = crc32(self.blob(e));
            if actual != e.crc32 {
                return Err(PakError::CrcMismatch(e.crc32, actual));
            }
            i = i + 1;
        }
        Ok(())
    }
}

} // verus!
