//! GoldSrc BSP version 30 on-disk layout: `i32 version` (== 30) followed by
//! 15 lump directory entries, each `{ i32 offset; i32 length }`, in a fixed
//! lump order.
use vstd::prelude::*;
use crate::bsp::BspError;
use crate::bsp::reader::{nul_padded_name, short_read, Reader};
use crate::le::{get_u16_le, get_u32_le, le_u16_at, le_u32_at};

verus! {

/// GoldSrc / Half-Life 1 BSP version.
pub const BSP_VERSION_GOLDSRC: i32 = 30;

/// Number of lumps in the header directory.
pub const NUM_LUMPS: usize = 15;

/// Size of the header: version plus the lump directory.
pub const HEADER_SIZE: usize = 124;

/// Lump indices in the header directory.
#[derive(Clone, Copy, Debug, PartialEq, Eq, Structural)]
pub enum LumpId {
    Entities,
    Planes,
    Textures,
    Vertices,
    Visibility,
    Nodes,
    TexInfo,
    Faces,
    Lighting,
    ClipNodes,
    Leaves,
    MarkSurfaces,
    Edges,
    SurfEdges,
    Models,
}

/// The directory slot of each lump.
pub open spec fn spec_lump_index(id: LumpId) -> int {
    match id {
        LumpId::Entities => 0,
        LumpId::Planes => 1,
        LumpId::Textures => 2,
        LumpId::Vertices => 3,
        LumpId::Visibility => 4,
        LumpId::Nodes => 5,
        LumpId::TexInfo => 6,
        LumpId::Faces => 7,
        LumpId::Lighting => 8,
        LumpId::ClipNodes => 9,
        LumpId::Leaves => 10,
        LumpId::MarkSurfaces => 11,
        LumpId::Edges => 12,
        LumpId::SurfEdges => 13,
        LumpId::Models => 14,
    }
}

/// The directory slot of a lump.
pub fn lump_index(id: LumpId) -> (r: usize)
    ensures
        r == spec_lump_index(id),
        r < NUM_LUMPS,
{
    match id {
        LumpId::Entities => 0,
        LumpId::Planes => 1,
        LumpId::Textures => 2,
        LumpId::Vertices => 3,
        LumpId::Visibility => 4,
        LumpId::Nodes => 5,
        LumpId::TexInfo => 6,
        LumpId::Faces => 7,
        LumpId::Lighting => 8,
        LumpId::ClipNodes => 9,
        LumpId::Leaves => 10,
        LumpId::MarkSurfaces => 11,
        LumpId::Edges => 12,
        LumpId::SurfEdges => 13,
        LumpId::Models => 14,
    }
}

/// The display name of each lump.
pub open spec fn spec_lump_name(id: LumpId) -> Seq<char> {
    match id {
        LumpId::Entities => "ENTITIES"@,
        LumpId::Planes => "PLANES"@,
        LumpId::Textures => "TEXTURES"@,
        LumpId::Vertices => "VERTICES"@,
        LumpId::Visibility => "VISIBILITY"@,
        LumpId::Nodes => "NODES"@,
        LumpId::TexInfo => "TEXINFO"@,
        LumpId::Faces => "FACES"@,
        LumpId::Lighting => "LIGHTING"@,
        LumpId::ClipNodes => "CLIPNODES"@,
        LumpId::Leaves => "LEAVES"@,
        LumpId::MarkSurfaces => "MARKSURFACES"@,
        LumpId::Edges => "EDGES"@,
        LumpId::SurfEdges => "SURFEDGES"@,
        LumpId::Models => "MODELS"@,
    }
}

/// The display name of a lump.
pub fn lump_name(id: LumpId) -> (r: &'static str)
    ensures
        r@ == spec_lump_name(id),
{
    match id {
        LumpId::Entities => "ENTITIES",
        LumpId::Planes => "PLANES",
        LumpId::Textures => "TEXTURES",
        LumpId::Vertices => "VERTICES",
        LumpId::Visibility => "VISIBILITY",
        LumpId::Nodes => "NODES",
        LumpId::TexInfo => "TEXINFO",
        LumpId::Faces => "FACES",
        LumpId::Lighting => "LIGHTING",
        LumpId::ClipNodes => "CLIPNODES",
        LumpId::Leaves => "LEAVES",
        LumpId::MarkSurfaces => "MARKSURFACES",
        LumpId::Edges => "EDGES",
        LumpId::SurfEdges => "SURFEDGES",
        LumpId::Models => "MODELS",
    }
}

/// One lump directory entry.
#[derive(Clone, Copy, Debug, Default, PartialEq, Eq, Structural)]
pub struct Lump {
    pub offset: u32,
    pub length: u32,
}

/// The parsed header: version + lump directory.
#[derive(Clone, Copy, Debug)]
pub struct Header {
    pub version: i32,
    pub lumps: [Lump; 15],
}

/// The directory entry in slot `k` of a header buffer.
pub open spec fn lump_at(data: Seq<u8>, k: int) -> Lump {
    Lump {
        offset: le_u32_at(data, 4 + 8 * k) as u32,
        length: le_u32_at(data, 8 + 8 * k) as u32,
    }
}

/// What parsing a header yields: the version and the fifteen directory
/// entries, or the first read that runs past the end.
pub open spec fn header_ok(h: Header, data: Seq<u8>) -> bool {
    &&& h.version == (le_u32_at(data, 0) as u32) as i32
    &&& forall|k: int| 0 <= k < 15 ==> #[trigger] h.lumps@[k] == lump_at(data, k)
}

/// A `dedge_t` (4 bytes): two vertex indices.
#[derive(Clone, Copy, Debug)]
pub struct Edge {
    pub v: [u16; 2],
}

/// GoldSrc `TEX_SPECIAL` flag: surface has no lightmap (sky, nodraw, etc.).
pub const TEX_SPECIAL: i32 = 1;

/// A `dface_t` (20 bytes).
#[derive(Clone, Copy, Debug)]
pub struct Face {
    pub plane: u16,
    pub side: i16,
    pub first_edge: u32,
    pub num_edges: u16,
    pub texinfo: u16,
    pub styles: [u8; 4],
    /// Byte offset into the LIGHTING lump, or -1 for no lightmap.
    pub light_ofs: i32,
}

impl Header {
    /// Parse the version and lump directory from the start of a BSP file.
    pub fn parse(data: &[u8]) -> (r: Result<Header, BspError>)
        ensures
            data@.len() >= HEADER_SIZE ==> (r matches Ok(h) && header_ok(h, data@)),
            data@.len() < HEADER_SIZE ==> r == Err::<Header, BspError>(
                short_read(data@, (4 * (data@.len() / 4)) as usize, 4),
            ),
    {
        let mut r = Reader::new(data);
        let version = r.i32()?;
        let mut lumps = [Lump { offset: 0, length: 0 };15];
        let mut k: usize = 0;
        while k < NUM_LUMPS
            invariant
                r.data() == data@,
                r.position() == 4 + 8 * k,
                k <= 15,
                data@.len() >= r.position(),
                version == (le_u32_at(data@, 0) as u32) as i32,
                forall|j: int| 0 <= j < k ==> #[trigger] lumps@[j] == lump_at(data@, j),
            decreases 15 - k,
        {
            let offset = r.u32()?;
            let length = r.u32()?;
            lumps[k] = Lump { offset, length };
            k = k + 1;
        }
        Ok(Header { version, lumps })
    }

    /// The directory entry of a lump.
    pub fn lump(&self, id: LumpId) -> (l: Lump)
        ensures
            l == self.lumps@[spec_lump_index(id)],
    {
        self.lumps[lump_index(id)]
    }

    /// Borrow the raw bytes of a lump, bounds-checked: the range
    /// `offset..offset + length` must lie inside `data`.
    pub fn lump_bytes<'a>(&self, data: &'a [u8], id: LumpId) -> (r: Result<&'a [u8], BspError>)
        ensures
            ({
                let l = self.lumps@[spec_lump_index(id)];
                &&& l.offset + l.length <= data@.len() ==> (r matches Ok(s) && s@
                    == data@.subrange(l.offset as int, l.offset + l.length))
                &&& l.offset + l.length > data@.len() ==> r == Err::<&'a [u8], BspError>(
                    BspError::LumpOutOfRange {
                        lump: spec_lump_index(id) as usize,
                        start: l.offset as usize,
                        end: if l.offset + l.length > usize::MAX {
                            usize::MAX
                        } else {
                            (l.offset + l.length) as usize
                        },
                        len: data@.len() as usize,
                    },
                )
            }),
    {
        let l = self.lump(id);
        let start = l.offset as usize;
        let end = match start.checked_add(l.length as usize) {
            Some(e) => e,
            None => usize::MAX,
        };
        if start > data.len() || l.length as usize > data.len() - start {
            return Err(
                BspError::LumpOutOfRange { lump: lump_index(id), start, end, len: data.len() },
            );
        }
        Ok(&data[start..end])
    }
}

// ---------------------------------------------------------------------------
// Fixed-stride lump records
// ---------------------------------------------------------------------------

/// The IEEE-754 bit patterns of three `f32` coordinates, as stored on disk.
/// The engine turns them into floats with `f32::from_bits` where it renders.
#[derive(Clone, Copy, Debug, PartialEq, Eq, Structural)]
pub struct RawVec3 {
    pub x: u32,
    pub y: u32,
    pub z: u32,
}

/// A `dplane_t` (20 bytes); `dist` is the bit pattern of an `f32`.
#[derive(Clone, Copy, Debug)]
pub struct Plane {
    pub normal: RawVec3,
    pub dist: u32,
    pub kind: i32,
}

/// A `texinfo_t` (40 bytes): the S/T projection vectors (bit patterns of
/// `f32`s) plus miptex index and flags; `s = dot(pos, s_axis) + s_offset`.
#[derive(Clone, Copy, Debug)]
pub struct TexInfo {
    pub s_axis: RawVec3,
    pub s_offset: u32,
    pub t_axis: RawVec3,
    pub t_offset: u32,
    pub miptex: u32,
    pub flags: i32,
}

/// A `dmodel_t` (64 bytes). Model 0 is the world; models 1.. are brush
/// entities. The bounds and origin are bit patterns of `f32`s.
#[derive(Clone, Copy, Debug)]
pub struct Model {
    pub mins: RawVec3,
    pub maxs: RawVec3,
    pub origin: RawVec3,
    pub head_nodes: [i32; 4],
    pub vis_leafs: i32,
    pub first_face: u32,
    pub num_faces: u32,
}

/// The little-endian `u32` at `at`, as a `u32`.
pub open spec fn u32_at(b: Seq<u8>, at: int) -> u32 {
    le_u32_at(b, at) as u32
}

/// The little-endian `u32` at `at`, as a two's-complement `i32`.
pub open spec fn i32_at(b: Seq<u8>, at: int) -> i32 {
    (le_u32_at(b, at) as u32) as i32
}

/// Three little-endian `u32`s at `at`.
pub open spec fn vec3_at(b: Seq<u8>, at: int) -> RawVec3 {
    RawVec3 { x: u32_at(b, at), y: u32_at(b, at + 4), z: u32_at(b, at + 8) }
}

/// A record type stored as a fixed-size slot in a lump.
pub trait LumpRecord: Sized {
    /// Size of one record on disk.
    spec fn spec_stride() -> nat;

    /// The record stored at `at` of `b`.
    spec fn spec_decode(b: Seq<u8>, at: int) -> Self;

    /// Size of one record on disk.
    fn stride() -> (r: usize)
        ensures
            r == Self::spec_stride(),
    ;

    /// Decode the record at `at`.
    fn decode(bytes: &[u8], at: usize) -> (r: Self)
        requires
            at + Self::spec_stride() <= bytes@.len(),
        ensures
            r == Self::spec_decode(bytes@, at as int),
    ;
}

fn read_u32_at(bytes: &[u8], at: usize) -> (r: u32)
    requires
        at + 4 <= bytes@.len(),
    ensures
        r == u32_at(bytes@, at as int),
{
    get_u32_le(bytes, at)
}

fn read_i32_at(bytes: &[u8], at: usize) -> (r: i32)
    requires
        at + 4 <= bytes@.len(),
    ensures
        r == i32_at(bytes@, at as int),
{
    get_u32_le(bytes, at) as i32
}

fn read_vec3_at(bytes: &[u8], at: usize) -> (r: RawVec3)
    requires
        at + 12 <= bytes@.len(),
    ensures
        r == vec3_at(bytes@, at as int),
{
    let _n = bytes.len();
    RawVec3 {
        x: read_u32_at(bytes, at),
        y: read_u32_at(bytes, at + 4),
        z: read_u32_at(bytes, at + 8),
    }
}

impl LumpRecord for Plane {
    open spec fn spec_stride() -> nat {
        20
    }

    open spec fn spec_decode(b: Seq<u8>, at: int) -> Plane {
        Plane { normal: vec3_at(b, at), dist: u32_at(b, at + 12), kind: i32_at(b, at + 16) }
    }

    fn stride() -> (r: usize) {
        20
    }

    fn decode(bytes: &[u8], at: usize) -> (r: Plane) {
        let _n = bytes.len();
        Plane {
            normal: read_vec3_at(bytes, at),
            dist: read_u32_at(bytes, at + 12),
            kind: read_i32_at(bytes, at + 16),
        }
    }
}

impl LumpRecord for RawVec3 {
    open spec fn spec_stride() -> nat {
        12
    }

    open spec fn spec_decode(b: Seq<u8>, at: int) -> RawVec3 {
        vec3_at(b, at)
    }

    fn stride() -> (r: usize) {
        12
    }

    fn decode(bytes: &[u8], at: usize) -> (r: RawVec3) {
        let _n = bytes.len();
        read_vec3_at(bytes, at)
    }
}

impl LumpRecord for Edge {
    open spec fn spec_stride() -> nat {
        4
    }

    open spec fn spec_decode(b: Seq<u8>, at: int) -> Edge {
        Edge { v: [le_u16_at(b, at) as u16, le_u16_at(b, at + 2) as u16] }
    }

    fn stride() -> (r: usize) {
        4
    }

    fn decode(bytes: &[u8], at: usize) -> (r: Edge) {
        let _n = bytes.len();
        Edge { v: [get_u16_le(bytes, at), get_u16_le(bytes, at + 2)] }
    }
}

impl LumpRecord for i32 {
    open spec fn spec_stride() -> nat {
        4
    }

    open spec fn spec_decode(b: Seq<u8>, at: int) -> i32 {
        i32_at(b, at)
    }

    fn stride() -> (r: usize) {
        4
    }

    fn decode(bytes: &[u8], at: usize) -> (r: i32) {
        let _n = bytes.len();
        read_i32_at(bytes, at)
    }
}

impl LumpRecord for TexInfo {
    open spec fn spec_stride() -> nat {
        40
    }

    open spec fn spec_decode(b: Seq<u8>, at: int) -> TexInfo {
        TexInfo {
            s_axis: vec3_at(b, at),
            s_offset: u32_at(b, at + 12),
            t_axis: vec3_at(b, at + 16),
            t_offset: u32_at(b, at + 28),
            miptex: u32_at(b, at + 32),
            flags: i32_at(b, at + 36),
        }
    }

    fn stride() -> (r: usize) {
        40
    }

    fn decode(bytes: &[u8], at: usize) -> (r: TexInfo) {
        let _n = bytes.len();
        TexInfo {
            s_axis: read_vec3_at(bytes, at),
            s_offset: read_u32_at(bytes, at + 12),
            t_axis: read_vec3_at(bytes, at + 16),
            t_offset: read_u32_at(bytes, at + 28),
            miptex: read_u32_at(bytes, at + 32),
            flags: read_i32_at(bytes, at + 36),
        }
    }
}

impl LumpRecord for Face {
    open spec fn spec_stride() -> nat {
        20
    }

    open spec fn spec_decode(b: Seq<u8>, at: int) -> Face {
        Face {
            plane: le_u16_at(b, at) as u16,
            side: (le_u16_at(b, at + 2) as u16) as i16,
            first_edge: u32_at(b, at + 4),
            num_edges: le_u16_at(b, at + 8) as u16,
            texinfo: le_u16_at(b, at + 10) as u16,
            styles: [b[at + 12], b[at + 13], b[at + 14], b[at + 15]],
            light_ofs: i32_at(b, at + 16),
        }
    }

    fn stride() -> (r: usize) {
        20
    }

    fn decode(bytes: &[u8], at: usize) -> (r: Face) {
        let _n = bytes.len();
        Face {
            plane: get_u16_le(bytes, at),
            side: get_u16_le(bytes, at + 2) as i16,
            first_edge: read_u32_at(bytes, at + 4),
            num_edges: get_u16_le(bytes, at + 8),
            texinfo: get_u16_le(bytes, at + 10),
            styles: [bytes[at + 12], bytes[at + 13], bytes[at + 14], bytes[at + 15]],
            light_ofs: read_i32_at(bytes, at + 16),
        }
    }
}

impl LumpRecord for Model {
    open spec fn spec_stride() -> nat {
        64
    }

    open spec fn spec_decode(b: Seq<u8>, at: int) -> Model {
        Model {
            mins: vec3_at(b, at),
            maxs: vec3_at(b, at + 12),
            origin: vec3_at(b, at + 24),
            head_nodes: [i32_at(b, at + 36), i32_at(b, at + 40), i32_at(b, at + 44), i32_at(b, at + 48)],
            vis_leafs: i32_at(b, at + 52),
            first_face: u32_at(b, at + 56),
            num_faces: u32_at(b, at + 60),
        }
    }

    fn stride() -> (r: usize) {
        64
    }

    fn decode(bytes: &[u8], at: usize) -> (r: Model) {
        let _n = bytes.len();
        Model {
            mins: read_vec3_at(bytes, at),
            maxs: read_vec3_at(bytes, at + 12),
            origin: read_vec3_at(bytes, at + 24),
            head_nodes: [
                read_i32_at(bytes, at + 36),
                read_i32_at(bytes, at + 40),
                read_i32_at(bytes, at + 44),
                read_i32_at(bytes, at + 48),
            ],
            vis_leafs: read_i32_at(bytes, at + 52),
            first_face: read_u32_at(bytes, at + 56),
            num_faces: read_u32_at(bytes, at + 60),
        }
    }
}

/// The whole records a lump holds: `len / stride` of them, back to back
/// (a trailing partial record is ignored).
pub open spec fn records_of<T: LumpRecord>(b: Seq<u8>) -> Seq<T> {
    Seq::new(b.len() / T::spec_stride(), |k: int| T::spec_decode(b, k * T::spec_stride()))
}

/// Read the fixed-stride records of a lump.
pub fn parse_records<T: LumpRecord>(bytes: &[u8]) -> (r: Vec<T>)
    requires
        T::spec_stride() > 0,
    ensures
        r@ == records_of::<T>(bytes@),
{
    let stride = T::stride();
    let count = bytes.len() / stride;
    assert(bytes@.len() <= usize::MAX);
    let mut out: Vec<T> = Vec::new();
    let mut k: usize = 0;
    while k < count
        invariant
            stride == T::spec_stride(),
            stride > 0,
            bytes@.len() <= usize::MAX,
            count == (bytes@.len() as int) / (stride as int),
            k <= count,
            out@.len() == k,
            forall|j: int| 0 <= j < k ==> #[trigger] out@[j] == T::spec_decode(bytes@, j * stride),
        decreases count - k,
    {
        assert(k * stride + stride <= bytes@.len()) by (nonlinear_arith)
            requires
                k < count,
                count == (bytes@.len() as int) / (stride as int),
                stride > 0,
        ;
        assert(k * stride <= usize::MAX) by (nonlinear_arith)
            requires
                k * stride + stride <= bytes@.len(),
                bytes@.len() <= usize::MAX,
        ;
        let rec = T::decode(bytes, k * stride);
        out.push(rec);
        k = k + 1;
    }
    assert(out@ =~= records_of::<T>(bytes@));
    out
}

// ---------------------------------------------------------------------------
// The whole file
// ---------------------------------------------------------------------------

/// The decoded lump arrays used for mesh, collision and entities.
/// Visibility, nodes, leaves, clipnodes and marksurfaces are not decoded.
pub struct RawBsp {
    pub header: Header,
    pub entities_text: String,
    pub planes: Vec<Plane>,
    pub vertices: Vec<RawVec3>,
    pub edges: Vec<Edge>,
    pub surf_edges: Vec<i32>,
    pub texinfos: Vec<TexInfo>,
    pub faces: Vec<Face>,
    pub lighting: Vec<u8>,
    pub models: Vec<Model>,
    /// Raw TEXTURES lump bytes (miptex table); decoded lazily with WADs.
    pub textures_lump: Vec<u8>,
}

/// The directory entry of `id` in a file of at least header size.
pub open spec fn lump_of(data: Seq<u8>, id: LumpId) -> Lump {
    lump_at(data, spec_lump_index(id))
}

/// Whether the lump lies inside the file.
pub open spec fn lump_fits(data: Seq<u8>, id: LumpId) -> bool {
    lump_of(data, id).offset + lump_of(data, id).length <= data.len()
}

/// The bytes of a lump that fits.
pub open spec fn lump_slice(data: Seq<u8>, id: LumpId) -> Seq<u8> {
    data.subrange(
        lump_of(data, id).offset as int,
        lump_of(data, id).offset + lump_of(data, id).length,
    )
}

/// The error reported for a lump that does not fit.
pub open spec fn lump_error(data: Seq<u8>, id: LumpId) -> BspError {
    let l = lump_of(data, id);
    BspError::LumpOutOfRange {
        lump: spec_lump_index(id) as usize,
        start: l.offset as usize,
        end: if l.offset + l.length > usize::MAX {
            usize::MAX
        } else {
            (l.offset + l.length) as usize
        },
        len: data.len() as usize,
    }
}

/// The first problem met while loading a BSP, if any: a short header, a
/// version other than 30, or the first lump (in loading order) that runs
/// past the end of the file.
pub open spec fn raw_bsp_error(data: Seq<u8>) -> Option<BspError> {
    if data.len() < HEADER_SIZE {
        Some(short_read(data, (4 * (data.len() / 4)) as usize, 4))
    } else if i32_at(data, 0) != BSP_VERSION_GOLDSRC {
        Some(BspError::UnsupportedVersion(i32_at(data, 0)))
    } else if !lump_fits(data, LumpId::Entities) {
        Some(lump_error(data, LumpId::Entities))
    } else if !lump_fits(data, LumpId::Planes) {
        Some(lump_error(data, LumpId::Planes))
    } else if !lump_fits(data, LumpId::Vertices) {
        Some(lump_error(data, LumpId::Vertices))
    } else if !lump_fits(data, LumpId::Edges) {
        Some(lump_error(data, LumpId::Edges))
    } else if !lump_fits(data, LumpId::SurfEdges) {
        Some(lump_error(data, LumpId::SurfEdges))
    } else if !lump_fits(data, LumpId::TexInfo) {
        Some(lump_error(data, LumpId::TexInfo))
    } else if !lump_fits(data, LumpId::Faces) {
        Some(lump_error(data, LumpId::Faces))
    } else if !lump_fits(data, LumpId::Lighting) {
        Some(lump_error(data, LumpId::Lighting))
    } else if !lump_fits(data, LumpId::Models) {
        Some(lump_error(data, LumpId::Models))
    } else if !lump_fits(data, LumpId::Textures) {
        Some(lump_error(data, LumpId::Textures))
    } else {
        None
    }
}

/// The decoded arrays agree with the lumps of `data`.
pub open spec fn raw_bsp_ok(raw: RawBsp, data: Seq<u8>) -> bool {
    &&& header_ok(raw.header, data)
    &&& raw.entities_text@ == nul_padded_name(lump_slice(data, LumpId::Entities))
    &&& raw.planes@ == records_of::<Plane>(lump_slice(data, LumpId::Planes))
    &&& raw.vertices@ == records_of::<RawVec3>(lump_slice(data, LumpId::Vertices))
    &&& raw.edges@ == records_of::<Edge>(lump_slice(data, LumpId::Edges))
    &&& raw.surf_edges@ == records_of::<i32>(lump_slice(data, LumpId::SurfEdges))
    &&& raw.texinfos@ == records_of::<TexInfo>(lump_slice(data, LumpId::TexInfo))
    &&& raw.faces@ == records_of::<Face>(lump_slice(data, LumpId::Faces))
    &&& raw.lighting@ == lump_slice(data, LumpId::Lighting)
    &&& raw.models@ == records_of::<Model>(lump_slice(data, LumpId::Models))
    &&& raw.textures_lump@ == lump_slice(data, LumpId::Textures)
}

impl RawBsp {
    /// Parse a GoldSrc v30 BSP: the header, the entity text (up to its NUL)
    /// and the fixed-stride lump arrays.
    pub fn parse(data: &[u8]) -> (r: Result<RawBsp, BspError>)
        ensures
            match raw_bsp_error(data@) {
                Some(e) => r == Err::<RawBsp, BspError>(e),
                None => r matches Ok(raw) && raw_bsp_ok(raw, data@),
            },
    {
        let header = Header::parse(data)?;
        if header.version != BSP_VERSION_GOLDSRC {
            return Err(BspError::UnsupportedVersion(header.version));
        }
        proof {
            assert(header.lumps@[0] == lump_at(data@, 0));
            assert(header.lumps@[1] == lump_at(data@, 1));
            assert(header.lumps@[2] == lump_at(data@, 2));
            assert(header.lumps@[3] == lump_at(data@, 3));
            assert(header.lumps@[6] == lump_at(data@, 6));
            assert(header.lumps@[7] == lump_at(data@, 7));
            assert(header.lumps@[8] == lump_at(data@, 8));
            assert(header.lumps@[12] == lump_at(data@, 12));
            assert(header.lumps@[13] == lump_at(data@, 13));
            assert(header.lumps@[14] == lump_at(data@, 14));
        }
        let ent_bytes = header.lump_bytes(data, LumpId::Entities)?;
        let entities_text = Reader::new(ent_bytes).fixed_str(ent_bytes.len())?;
        assert(ent_bytes@.subrange(0, ent_bytes@.len() as int) =~= ent_bytes@);
        let planes = parse_records::<Plane>(header.lump_bytes(data, LumpId::Planes)?);
        let vertices = parse_records::<RawVec3>(header.lump_bytes(data, LumpId::Vertices)?);
        let edges = parse_records::<Edge>(header.lump_bytes(data, LumpId::Edges)?);
        let surf_edges = parse_records::<i32>(header.lump_bytes(data, LumpId::SurfEdges)?);
        let texinfos = parse_records::<TexInfo>(header.lump_bytes(data, LumpId::TexInfo)?);
        let faces = parse_records::<Face>(header.lump_bytes(data, LumpId::Faces)?);
        let lighting = vstd::slice::slice_to_vec(header.lump_bytes(data, LumpId::Lighting)?);
        let models = parse_records::<Model>(header.lump_bytes(data, LumpId::Models)?);
        let textures_lump = vstd::slice::slice_to_vec(header.lump_bytes(data, LumpId::Textures)?);
        Ok(
            RawBsp {
                header,
                entities_text,
                planes,
                vertices,
                edges,
                surf_edges,
                texinfos,
                faces,
                lighting,
                models,
                textures_lump,
            },
        )
    }
}

} // verus!
