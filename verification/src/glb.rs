//! A minimal binary glTF (`.glb`) writer for the engine's procedural
//! placeholder content: it accumulates the BIN chunk with the buffer views
//! and accessors that slice it, and frames a JSON document and a BIN blob
//! into a single `.glb`. Writing the JSON text itself is left to the caller.
use vstd::prelude::*;
use crate::le::{le_u32_at, lemma_u32_le_at, push_u16_le, push_u32_le, u16_le, u32_le};

verus! {

/// glTF accessor `componentType` of `f32` components.
pub const F32: u32 = 5126;

/// glTF accessor `componentType` of `u16` components.
pub const U16: u32 = 5123;

/// glTF accessor `componentType` of `u32` components.
pub const U32: u32 = 5125;

/// glTF `bufferView` target of vertex attributes.
pub const ARRAY_BUFFER: u32 = 34962;

/// glTF `bufferView` target of indices.
pub const ELEMENT_ARRAY_BUFFER: u32 = 34963;

/// `glTF`, the GLB magic, as a little-endian word.
pub const GLB_MAGIC: u32 = 0x4654_6C67;

/// `JSON`, the JSON chunk type.
pub const CHUNK_JSON: u32 = 0x4E4F_534A;

/// `BIN\0`, the binary chunk type.
pub const CHUNK_BIN: u32 = 0x004E_4942;

/// A `bufferView`: a byte range of the BIN chunk.
#[derive(Clone, Copy, Debug, PartialEq, Eq, Structural)]
pub struct BufferView {
    pub byte_offset: usize,
    pub byte_length: usize,
    pub target: Option<u32>,
}

/// The element shape of an accessor.
#[derive(Clone, Copy, Debug, PartialEq, Eq, Structural)]
pub enum AccessorType {
    Scalar,
    Vec2,
    Vec3,
    Vec4,
    Mat4,
}

/// An `accessor` over one buffer view. `min` and `max`, when present, hold
/// the bit patterns of the `f32` bounds glTF asks for on positions and
/// animation times.
#[derive(Clone, Debug)]
pub struct Accessor {
    pub buffer_view: usize,
    pub component_type: u32,
    pub count: usize,
    pub kind: AccessorType,
    pub min: Option<Vec<u32>>,
    pub max: Option<Vec<u32>>,
}

/// Accumulates the BIN chunk plus the buffer views and accessors that index
/// it.
pub struct BinBuilder {
    data: Vec<u8>,
    views: Vec<BufferView>,
    accessors: Vec<Accessor>,
}

/// The content of a builder: the BIN bytes, the views and the accessors.
pub struct BinView {
    pub data: Seq<u8>,
    pub views: Seq<BufferView>,
    pub accessors: Seq<Accessor>,
}

impl View for BinBuilder {
    type V = BinView;

    closed spec fn view(&self) -> BinView {
        BinView { data: self.data@, views: self.views@, accessors: self.accessors@ }
    }
}

/// `s` followed by as many `fill` bytes as bring its length to a multiple
/// of four.
pub open spec fn pad4(s: Seq<u8>, fill: u8) -> Seq<u8> {
    s + Seq::new(((4 - s.len() % 4) % 4) as nat, |i: int| fill)
}

/// The little-endian bytes of a run of `u32`s.
pub open spec fn u32s_le(v: Seq<u32>) -> Seq<u8>
    decreases v.len(),
{
    if v.len() == 0 {
        Seq::empty()
    } else {
        u32s_le(v.drop_last()) + u32_le(v.last())
    }
}

/// The little-endian bytes of a run of `u16` quadruples.
pub open spec fn u16x4s_le(v: Seq<[u16; 4]>) -> Seq<u8>
    decreases v.len(),
{
    if v.len() == 0 {
        Seq::empty()
    } else {
        let q = v.last();
        u16x4s_le(v.drop_last()) + u16_le(q@[0]) + u16_le(q@[1]) + u16_le(q@[2]) + u16_le(q@[3])
    }
}

/// The builder after appending `bytes` as a new view at the next 4-byte
/// boundary.
pub open spec fn with_view(b: BinView, bytes: Seq<u8>, target: Option<u32>) -> BinView {
    let start = pad4(b.data, 0);
    BinView {
        data: start + bytes,
        views: b.views.push(
            BufferView {
                byte_offset: start.len() as usize,
                byte_length: bytes.len() as usize,
                target,
            },
        ),
        accessors: b.accessors,
    }
}

/// The accessor of a run of scalars or vectors with no bounds.
pub open spec fn plain_accessor(view: int, component_type: u32, count: int, kind: AccessorType) -> Accessor {
    Accessor {
        buffer_view: view as usize,
        component_type,
        count: count as usize,
        kind,
        min: None,
        max: None,
    }
}

/// Append `fill` until the length of `out` is a multiple of four.
fn pad_to_4(out: &mut Vec<u8>, fill: u8)
    requires
        old(out)@.len() + 3 <= usize::MAX,
    ensures
        final(out)@ == pad4(old(out)@, fill),
{
    let ghost start = out@;
    while out.len() % 4 != 0
        invariant
            start.len() <= out@.len() <= start.len() + 3,
            start.len() + 3 <= usize::MAX,
            out@ == start + Seq::new((out@.len() - start.len()) as nat, |i: int| fill),
            (out@.len() - start.len()) <= (4 - start.len() % 4) % 4,
            out@.len() % 4 == 0 ==> out@.len() - start.len() == (4 - start.len() % 4) % 4,
            (out@.len() - start.len()) == (4 - start.len() % 4) % 4 ==> out@.len() % 4 == 0,
        decreases start.len() + 3 - out@.len(),
    {
        let ghost before = out@;
        out.push(fill);
        assert(out@ =~= start + Seq::new((out@.len() - start.len()) as nat, |i: int| fill));
    }
}

impl BinBuilder {
    /// An empty builder.
    pub fn new() -> (b: Self)
        ensures
            b@.data == Seq::<u8>::empty(),
            b@.views == Seq::<BufferView>::empty(),
            b@.accessors == Seq::<Accessor>::empty(),
    {
        BinBuilder { data: Vec::new(), views: Vec::new(), accessors: Vec::new() }
    }

    /// Append raw bytes as a new buffer view, 4-byte aligned (zero padding
    /// before it). Returns its index.
    pub fn push_view(&mut self, bytes: &[u8], target: Option<u32>) -> (idx: usize)
        requires
            old(self)@.data.len() + 3 + bytes@.len() <= usize::MAX,
        ensures
            idx == old(self)@.views.len(),
            final(self)@.data == with_view(old(self)@, bytes@, target).data,
            final(self)@.views == with_view(old(self)@, bytes@, target).views,
            final(self)@.accessors == old(self)@.accessors,
    {
        let ghost old_views = self.views@;
        let ghost old_data = self.data@;
        let ghost old_acc = self.accessors@;
        pad_to_4(&mut self.data, 0);
        assert(self.views@ == old_views);
        let offset = self.data.len();
        let mut k: usize = 0;
        let ghost start = self.data@;
        while k < bytes.len()
            invariant
                start.len() + bytes@.len() <= usize::MAX,
                k <= bytes@.len(),
                self.data@ == start + bytes@.take(k as int),
                self.views@ == old_views,
                self.accessors@ == old_acc,
            decreases bytes@.len() - k,
        {
            self.data.push(bytes[k]);
            assert(bytes@.take(k + 1) =~= bytes@.take(k as int).push(bytes@[k as int]));
            assert(self.data@ =~= start + bytes@.take(k + 1));
            k = k + 1;
        }
        assert(bytes@.take(bytes@.len() as int) =~= bytes@);
        let idx = self.views.len();
        self.views.push(BufferView { byte_offset: offset, byte_length: bytes.len(), target });
        assert(self.data@ == pad4(old_data, 0) + bytes@);
        idx
    }

    /// Append an accessor. Returns its index.
    pub fn push_accessor(&mut self, accessor: Accessor) -> (idx: usize)
        ensures
            idx == old(self)@.accessors.len(),
            final(self)@.data == old(self)@.data,
            final(self)@.views == old(self)@.views,
            final(self)@.accessors == old(self)@.accessors.push(accessor),
    {
        let idx = self.accessors.len();
        self.accessors.push(accessor);
        idx
    }

    /// Push a `u32` SCALAR index accessor. Returns its index.
    pub fn accessor_indices(&mut self, indices: &[u32]) -> (idx: usize)
        requires
            old(self)@.data.len() + 3 + 4 * indices@.len() <= usize::MAX,
        ensures
            idx == old(self)@.accessors.len(),
            final(self)@.data == with_view(old(self)@, u32s_le(indices@), Some(ELEMENT_ARRAY_BUFFER)).data,
            final(self)@.views == with_view(old(self)@, u32s_le(indices@), Some(ELEMENT_ARRAY_BUFFER)).views,
            final(self)@.accessors == old(self)@.accessors.push(
                plain_accessor(old(self)@.views.len() as int, U32, indices@.len() as int, AccessorType::Scalar),
            ),
    {
        let mut bytes: Vec<u8> = Vec::new();
        let mut k: usize = 0;
        while k < indices.len()
            invariant
                k <= indices@.len(),
                bytes@ == u32s_le(indices@.take(k as int)),
                bytes@.len() == 4 * k,
            decreases indices@.len() - k,
        {
            push_u32_le(&mut bytes, indices[k]);
            assert(indices@.take(k + 1).drop_last() =~= indices@.take(k as int));
            k = k + 1;
        }
        assert(indices@.take(indices@.len() as int) =~= indices@);
        let view = self.push_view(&bytes, Some(ELEMENT_ARRAY_BUFFER));
        self.push_accessor(
            Accessor {
                buffer_view: view,
                component_type: U32,
                count: indices.len(),
                kind: AccessorType::Scalar,
                min: None,
                max: None,
            },
        )
    }

    /// Push a `u16` VEC4 accessor (joint indices). Returns its index.
    pub fn accessor_vec4_u16(&mut self, values: &[[u16; 4]], target: Option<u32>) -> (idx: usize)
        requires
            old(self)@.data.len() + 3 + 8 * values@.len() <= usize::MAX,
        ensures
            idx == old(self)@.accessors.len(),
            final(self)@.data == with_view(old(self)@, u16x4s_le(values@), target).data,
            final(self)@.views == with_view(old(self)@, u16x4s_le(values@), target).views,
            final(self)@.accessors == old(self)@.accessors.push(
                plain_accessor(old(self)@.views.len() as int, U16, values@.len() as int, AccessorType::Vec4),
            ),
    {
        let mut bytes: Vec<u8> = Vec::new();
        let mut k: usize = 0;
        while k < values.len()
            invariant
                k <= values@.len(),
                bytes@ == u16x4s_le(values@.take(k as int)),
                bytes@.len() == 8 * k,
            decreases values@.len() - k,
        {
            let q = values[k];
            push_u16_le(&mut bytes, q[0]);
            push_u16_le(&mut bytes, q[1]);
            push_u16_le(&mut bytes, q[2]);
            push_u16_le(&mut bytes, q[3]);
            assert(values@.take(k + 1).drop_last() =~= values@.take(k as int));
            assert(values@.take(k + 1).last() == q);
            k = k + 1;
        }
        assert(values@.take(values@.len() as int) =~= values@);
        let view = self.push_view(&bytes, target);
        self.push_accessor(
            Accessor {
                buffer_view: view,
                component_type: U16,
                count: values.len(),
                kind: AccessorType::Vec4,
                min: None,
                max: None,
            },
        )
    }

    /// The buffer views so far.
    pub fn buffer_views(&self) -> (r: &[BufferView])
        ensures
            r@ == self@.views,
    {
        self.views.as_slice()
    }

    /// The accessors so far.
    pub fn accessors(&self) -> (r: &[Accessor])
        ensures
            r@ == self@.accessors,
    {
        self.accessors.as_slice()
    }

    /// Total BIN byte length (the `buffers[0].byteLength`).
    pub fn bin_len(&self) -> (r: usize)
        ensures
            r == self@.data.len(),
    {
        self.data.len()
    }

    /// The BIN bytes.
    pub fn into_bin(self) -> (r: Vec<u8>)
        ensures
            r@ == self@.data,
    {
        self.data
    }
}

/// The 20 bytes that open a `.glb`: `glTF`, version 2, the total length,
/// then the JSON chunk's length and type.
#[verifier::opaque]
pub open spec fn glb_header(total: int, json_len: int) -> Seq<u8> {
    u32_le(GLB_MAGIC) + u32_le(2) + u32_le(total as u32) + u32_le(json_len as u32) + u32_le(CHUNK_JSON)
}

/// The 8 bytes before the BIN chunk: its length and type.
#[verifier::opaque]
pub open spec fn bin_chunk_header(len: int) -> Seq<u8> {
    u32_le(len as u32) + u32_le(CHUNK_BIN)
}

/// The `.glb` framing of a JSON document and a BIN blob: the 12-byte header
/// (`glTF`, version 2, total length), the JSON chunk padded with spaces and
/// the BIN chunk padded with zeros, each behind its length and type. Lengths
/// are written as `u32`s.
pub open spec fn glb_bytes(json: Seq<u8>, bin: Seq<u8>) -> Seq<u8> {
    let j = pad4(json, 0x20);
    let b = pad4(bin, 0);
    glb_header((12 + 8 + j.len() + 8 + b.len()) as int, j.len() as int) + j + bin_chunk_header(
        b.len() as int,
    ) + b
}

/// Append all of `src` to `out`.
fn append_bytes(out: &mut Vec<u8>, src: &[u8])
    requires
        old(out)@.len() + src@.len() <= usize::MAX,
    ensures
        final(out)@ == old(out)@ + src@,
{
    let ghost start = out@;
    let mut k: usize = 0;
    while k < src.len()
        invariant
            k <= src@.len(),
            out@ == start + src@.take(k as int),
        decreases src@.len() - k,
    {
        out.push(src[k]);
        assert(src@.take(k + 1) =~= src@.take(k as int).push(src@[k as int]));
        assert(out@ =~= start + src@.take(k + 1));
        k = k + 1;
    }
    assert(src@.take(src@.len() as int) =~= src@);
}

/// Assemble a complete `.glb` from serialized glTF JSON and a BIN blob.
pub fn assemble_glb(json: &[u8], bin: &[u8]) -> (out: Vec<u8>)
    requires
        json@.len() + bin@.len() + 40 <= usize::MAX,
    ensures
        out@ == glb_bytes(json@, bin@),
{
    let mut json_bytes: Vec<u8> = Vec::new();
    append_bytes(&mut json_bytes, json);
    pad_to_4(&mut json_bytes, 0x20);
    let mut bin_bytes: Vec<u8> = Vec::new();
    append_bytes(&mut bin_bytes, bin);
    pad_to_4(&mut bin_bytes, 0);
    let total = 12 + 8 + json_bytes.len() + 8 + bin_bytes.len();
    let mut out: Vec<u8> = Vec::new();
    push_u32_le(&mut out, GLB_MAGIC);
    push_u32_le(&mut out, 2);
    push_u32_le(&mut out, total as u32);
    push_u32_le(&mut out, json_bytes.len() as u32);
    push_u32_le(&mut out, CHUNK_JSON);
    assert(out@ =~= glb_header(total as int, json_bytes@.len() as int)) by {
        reveal(glb_header);
    }
    append_bytes(&mut out, json_bytes.as_slice());
    let ghost before_bin = out@;
    push_u32_le(&mut out, bin_bytes.len() as u32);
    push_u32_le(&mut out, CHUNK_BIN);
    assert(out@ =~= before_bin + bin_chunk_header(bin_bytes@.len() as int)) by {
        reveal(bin_chunk_header);
    }
    append_bytes(&mut out, bin_bytes.as_slice());
    out
}


/// Padding to four bytes adds fewer than four bytes and lands on a multiple
/// of four.
proof fn lemma_pad4(s: Seq<u8>, fill: u8)
    ensures
        pad4(s, fill).len() % 4 == 0,
        s.len() <= pad4(s, fill).len() < s.len() + 4,
        pad4(s, fill).subrange(0, s.len() as int) == s,
{
    assert(pad4(s, fill).subrange(0, s.len() as int) =~= s);
}

/// The fields of a 4-byte-aligned little-endian header word sequence.
proof fn lemma_words(a: u32, b: u32, c: u32, d: u32, e: u32)
    ensures
        ({
            let h = u32_le(a) + u32_le(b) + u32_le(c) + u32_le(d) + u32_le(e);
            &&& h.len() == 20
            &&& le_u32_at(h, 0) == a
            &&& le_u32_at(h, 8) == c
            &&& le_u32_at(h, 12) == d
        }),
{
    let h = u32_le(a) + u32_le(b) + u32_le(c) + u32_le(d) + u32_le(e);
    assert(h.subrange(0, 4) =~= u32_le(a));
    assert(h.subrange(8, 12) =~= u32_le(c));
    assert(h.subrange(12, 16) =~= u32_le(d));
    lemma_u32_le_at(h, 0, a);
    lemma_u32_le_at(h, 8, c);
    lemma_u32_le_at(h, 12, d);
}

/// A word read inside the first part of a concatenation reads the same.
proof fn lemma_word_in_prefix(p: Seq<u8>, q: Seq<u8>, at: int)
    requires
        0 <= at,
        at + 4 <= p.len(),
    ensures
        le_u32_at(p + q, at) == le_u32_at(p, at),
{
}

/// A word read inside the second part of a concatenation reads the same.
proof fn lemma_word_in_suffix(p: Seq<u8>, q: Seq<u8>, at: int)
    requires
        0 <= at,
        at + 4 <= q.len(),
    ensures
        le_u32_at(p + q, p.len() + at) == le_u32_at(q, at),
{
}

/// The words of a `.glb` header read back as written.
proof fn lemma_glb_header_words(total: int, json_len: int)
    requires
        0 <= total <= u32::MAX,
        0 <= json_len <= u32::MAX,
    ensures
        glb_header(total, json_len).len() == 20,
        le_u32_at(glb_header(total, json_len), 0) == GLB_MAGIC,
        le_u32_at(glb_header(total, json_len), 8) == total,
        le_u32_at(glb_header(total, json_len), 12) == json_len,
{
    reveal(glb_header);
    lemma_words(GLB_MAGIC, 2, total as u32, json_len as u32, CHUNK_JSON);
}

/// The BIN chunk length reads back as written.
proof fn lemma_bin_chunk_header_word(len: int)
    requires
        0 <= len <= u32::MAX,
    ensures
        bin_chunk_header(len).len() == 8,
        le_u32_at(bin_chunk_header(len), 0) == len,
{
    reveal(bin_chunk_header);
    let m = bin_chunk_header(len);
    assert(m.subrange(0, 4) =~= u32_le(len as u32));
    lemma_u32_le_at(m, 0, len as u32);
}

/// An assembled `.glb` is a valid container: its length is a multiple of
/// four and is what the header declares, and each chunk's declared length
/// is that of its padded bytes, a multiple of four.
pub proof fn lemma_glb_well_formed(json: Seq<u8>, bin: Seq<u8>)
    requires
        json.len() + bin.len() + 34 <= u32::MAX,
    ensures
        ({
            let g = glb_bytes(json, bin);
            let j = pad4(json, 0x20);
            let b = pad4(bin, 0);
            &&& g.len() % 4 == 0
            &&& le_u32_at(g, 0) == GLB_MAGIC
            &&& le_u32_at(g, 8) == g.len()
            &&& le_u32_at(g, 12) == j.len()
            &&& j.len() % 4 == 0
            &&& le_u32_at(g, 20 + j.len() as int) == b.len()
            &&& b.len() % 4 == 0
        }),
{
    let j = pad4(json, 0x20);
    let b = pad4(bin, 0);
    lemma_pad4(json, 0x20);
    lemma_pad4(bin, 0);
    let total: int = (28 + j.len() + b.len()) as int;
    let h = glb_header(total, j.len() as int);
    let m = bin_chunk_header(b.len() as int);
    let rest = j + m + b;
    let g = glb_bytes(json, bin);
    lemma_glb_header_words(total, j.len() as int);
    lemma_bin_chunk_header_word(b.len() as int);
    assert(g == h + j + m + b);
    assert(g.len() == total);
    assert(total % 4 == 0) by (nonlinear_arith)
        requires
            j.len() % 4 == 0,
            b.len() % 4 == 0,
            total == 28 + j.len() + b.len(),
    ;
    assert(g =~= h + rest);
    assert(le_u32_at(g, 0) == GLB_MAGIC) by {
        lemma_word_in_prefix(h, rest, 0);
    }
    assert(le_u32_at(g, 8) == total) by {
        lemma_word_in_prefix(h, rest, 8);
    }
    assert(le_u32_at(g, 12) == j.len()) by {
        lemma_word_in_prefix(h, rest, 12);
    }
    assert(le_u32_at(g, 20 + j.len() as int) == b.len()) by {
        lemma_word_in_prefix(m, b, 0);
        lemma_word_in_suffix(j, m + b, 0);
        assert(rest =~= j + (m + b));
        lemma_word_in_suffix(h, rest, j.len() as int);
    }
}

} // verus!
