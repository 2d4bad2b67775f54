//! From a loaded BSP toward renderable data: surface classification by
//! texture name, texture resolution (embedded or from WADs, with a visible
//! fallback), lightmap atlas packing and blitting, and the face edge walk.
use vstd::prelude::*;
use crate::bsp::format::{i32_at, Edge, RawBsp, RawVec3};
use crate::bsp::reader::nul_padded_name;
use crate::bsp::wad::{
    decode_miptex, is_color_keyed, spec_decode_miptex, table_get, MipTexHeader, TextureTable, Wad,
};
use crate::bsp::BspError;
use crate::le::{get_u32_le, le_u32_at};
use crate::material::{MaterialDesc, MaterialKind};
use crate::text::{
    ascii_lower, ascii_upper, chars_contain, chars_occur_at, occurs_at, occurs_in, str_chars,
    str_eq, str_to_ascii_lowercase,
};
use crate::texture::{missing_rgba, TextureData};

verus! {

/// The surface kind a GoldSrc texture name implies: `sky*` is sky, `{*` is
/// alpha-tested, `!*` or a name containing `water` or `liquid` is water, and
/// everything else is lit world (case-insensitive, except the prefixes).
pub open spec fn spec_classify(name: Seq<char>) -> MaterialKind {
    let lower = ascii_lower(name);
    if occurs_at(lower, 0, "sky"@) {
        MaterialKind::BspSky
    } else if name.len() > 0 && name[0] == '{' {
        MaterialKind::BspAlphaTest
    } else if (name.len() > 0 && name[0] == '!') || occurs_in(lower, "water"@) || occurs_in(
        lower,
        "liquid"@,
    ) {
        MaterialKind::BspWater
    } else {
        MaterialKind::BspWorldLit
    }
}

/// Classify a GoldSrc texture name into a material kind.
pub fn classify(name: &str) -> (k: MaterialKind)
    ensures
        k == spec_classify(name@),
{
    let lower_s = str_to_ascii_lowercase(name);
    let lower = str_chars(lower_s.as_str());
    let chars = str_chars(name);
    if chars_occur_at(&lower, 0, &str_chars("sky")) {
        MaterialKind::BspSky
    } else if chars.len() > 0 && chars[0] == '{' {
        MaterialKind::BspAlphaTest
    } else if (chars.len() > 0 && chars[0] == '!') || chars_contain(&lower, &str_chars("water"))
        || chars_contain(&lower, &str_chars("liquid")) {
        MaterialKind::BspWater
    } else {
        MaterialKind::BspWorldLit
    }
}

/// Whether a name (in any case) is one of the compile tool textures.
pub open spec fn spec_is_tool_texture(name: Seq<char>) -> bool {
    let lower = ascii_lower(name);
    ||| lower == "aaatrigger"@
    ||| lower == "null"@
    ||| lower == "nodraw"@
    ||| lower == "skip"@
    ||| lower == "hint"@
    ||| lower == "origin"@
    ||| lower == "clip"@
}

/// Non-rendered tool textures, kept out of the visible mesh.
pub fn is_tool_texture(name: &str) -> (r: bool)
    ensures
        r == spec_is_tool_texture(name@),
{
    let lower = str_to_ascii_lowercase(name);
    let l = lower.as_str();
    str_eq(l, "aaatrigger") || str_eq(l, "null") || str_eq(l, "nodraw") || str_eq(l, "skip")
        || str_eq(l, "hint") || str_eq(l, "origin") || str_eq(l, "clip")
}


// ---------------------------------------------------------------------------
// Texture resolution
// ---------------------------------------------------------------------------

/// A texture resolved (from embedded data or a WAD) and classified.
#[derive(Clone, Debug)]
pub struct ResolvedTexture {
    pub name: String,
    pub texture: TextureData,
    pub kind: MaterialKind,
    /// True if the texture existed (embedded or found in a WAD).
    pub found: bool,
}

/// The mathematical content of a resolved texture.
pub struct ResolvedView {
    pub name: Seq<char>,
    pub width: u32,
    pub height: u32,
    pub rgba: Seq<u8>,
    pub kind: MaterialKind,
    pub found: bool,
}

impl View for ResolvedTexture {
    type V = ResolvedView;

    open spec fn view(&self) -> ResolvedView {
        ResolvedView {
            name: self.name@,
            width: self.texture.width,
            height: self.texture.height,
            rgba: self.texture.rgba@,
            kind: self.kind,
            found: self.found,
        }
    }
}

/// The views of resolved textures.
pub open spec fn resolved_view(s: Seq<ResolvedTexture>) -> Seq<ResolvedView> {
    Seq::new(s.len(), |i: int| s[i]@)
}

/// A texture that could not be had: the missing-texture checker, not found.
pub open spec fn fallback(name: Seq<char>, kind: MaterialKind) -> ResolvedView {
    ResolvedView { name, width: 16, height: 16, rgba: missing_rgba(), kind, found: false }
}

/// The outcome of decoding a named miptex: its texels when it decodes, the
/// fallback otherwise.
pub open spec fn decoded(
    name: Seq<char>,
    kind: MaterialKind,
    d: Result<(u32, u32, Seq<u8>), BspError>,
) -> ResolvedView {
    match d {
        Ok((w, h, rgba)) => ResolvedView { name, width: w, height: h, rgba, kind, found: true },
        Err(_) => fallback(name, kind),
    }
}

/// How the miptex at offset `ofs` of the textures lump resolves: an offset
/// outside the lump gives `<invalid>`, a short header `<bad>`; otherwise the
/// texture is decoded from its embedded pixels or, when it has none, looked
/// up by name in the WADs.
pub open spec fn resolve_at(lump: Seq<u8>, ofs: i32, wad: TextureTable) -> ResolvedView {
    if ofs < 0 || ofs >= lump.len() {
        fallback("<invalid>"@, MaterialKind::BspWorldLit)
    } else {
        let b = lump.subrange(ofs as int, lump.len() as int);
        if b.len() < 40 {
            fallback("<bad>"@, MaterialKind::BspWorldLit)
        } else {
            let name = nul_padded_name(b.subrange(0, 16));
            let kind = spec_classify(name);
            if le_u32_at(b, 24) != 0 {
                decoded(name, kind, spec_decode_miptex(b, is_color_keyed(name)))
            } else {
                match table_get(wad, ascii_upper(name)) {
                    Some(wb) => decoded(name, kind, spec_decode_miptex(wb, is_color_keyed(name))),
                    None => fallback(name, kind),
                }
            }
        }
    }
}

/// The miptex offsets a textures lump lists: a count, then that many `i32`
/// offsets, as many as the lump can hold. A short lump or a negative count
/// lists none.
pub open spec fn miptex_offsets(lump: Seq<u8>) -> Seq<i32> {
    if lump.len() < 4 || i32_at(lump, 0) < 0 {
        Seq::empty()
    } else {
        let cap = (lump.len() - 4) / 4;
        let n = if i32_at(lump, 0) < cap {
            i32_at(lump, 0) as int
        } else {
            cap
        };
        Seq::new(n as nat, |k: int| i32_at(lump, 4 + 4 * k))
    }
}

/// Every texture of a textures lump, resolved in order.
pub open spec fn spec_resolve_textures(lump: Seq<u8>, wad: TextureTable) -> Seq<ResolvedView> {
    let o = miptex_offsets(lump);
    Seq::new(o.len(), |k: int| resolve_at(lump, o[k], wad))
}

/// A decoded miptex holds exactly `width * height` RGBA texels.
pub proof fn lemma_decoded_miptex_size(b: Seq<u8>, keyed: bool)
    ensures
        spec_decode_miptex(b, keyed) matches Ok((w, h, rgba)) ==> rgba.len() == w * h * 4,
{
}

/// Every texture resolution gives a well-formed image: its RGBA holds
/// exactly `width * height * 4` bytes, whether it was decoded, found in a
/// WAD, or replaced by the checker.
pub proof fn lemma_resolved_textures_well_formed(lump: Seq<u8>, wad: TextureTable, k: int)
    requires
        0 <= k < spec_resolve_textures(lump, wad).len(),
    ensures
        ({
            let v = spec_resolve_textures(lump, wad)[k];
            v.rgba.len() == v.width * v.height * 4
        }),
{
    let o = miptex_offsets(lump);
    let ofs = o[k];
    let v = resolve_at(lump, ofs, wad);
    assert(spec_resolve_textures(lump, wad)[k] == v);
    assert(missing_rgba().len() == 16 * 16 * 4);
    if 0 <= ofs < lump.len() {
        let b = lump.subrange(ofs as int, lump.len() as int);
        if b.len() >= 40 {
            let name = nul_padded_name(b.subrange(0, 16));
            lemma_decoded_miptex_size(b, is_color_keyed(name));
            match table_get(wad, ascii_upper(name)) {
                Some(wb) => lemma_decoded_miptex_size(wb, is_color_keyed(name)),
                None => {},
            }
        }
    }
}

/// The fallback for a texture that could not be had.
fn missing_texture(name: &str) -> (t: ResolvedTexture)
    ensures
        t@ == fallback(name@, MaterialKind::BspWorldLit),
{
    ResolvedTexture {
        name: name.to_owned(),
        texture: TextureData::missing(),
        kind: MaterialKind::BspWorldLit,
        found: false,
    }
}

/// Resolve the miptex at offset `ofs` of the textures lump.
fn resolve_one(lump: &[u8], ofs: i32, wads: &Wad) -> (t: ResolvedTexture)
    ensures
        t@ == resolve_at(lump@, ofs, wads@),
{
    if ofs < 0 || ofs as usize >= lump.len() {
        return missing_texture("<invalid>");
    }
    let o = ofs as usize;
    let bytes = &lump[o..lump.len()];
    let hdr = match MipTexHeader::parse(bytes) {
        Ok(h) => h,
        Err(_) => {
            return missing_texture("<bad>");
        },
    };
    assert(bytes@.subrange(0, 16) =~= lump@.subrange(o as int, lump@.len() as int).subrange(0, 16));
    let kind = classify(hdr.name.as_str());
    let embedded = hdr.has_embedded_pixels();
    let (texture, found) = if embedded {
        match decode_miptex(bytes, hdr.name.as_str()) {
            Ok(t) => (t, true),
            Err(_) => (TextureData::missing(), false),
        }
    } else {
        match wads.decode(hdr.name.as_str()) {
            Some(t) => (t, true),
            None => (TextureData::missing(), false),
        }
    };
    ResolvedTexture { name: hdr.name, texture, kind, found }
}

/// Resolve every miptex in the BSP textures lump, decoding embedded pixels,
/// pulling external textures from the WADs, and falling back to a magenta
/// checker when one is missing.
pub fn resolve_textures(raw: &RawBsp, wads: &Wad) -> (r: Vec<ResolvedTexture>)
    ensures
        resolved_view(r@) == spec_resolve_textures(raw.textures_lump@, wads@),
{
    let lump = raw.textures_lump.as_slice();
    let ghost lv = lump@;
    let ghost spec = spec_resolve_textures(lv, wads@);
    let mut out: Vec<ResolvedTexture> = Vec::new();
    if lump.len() < 4 {
        assert(resolved_view(out@) =~= spec);
        return out;
    }
    let count = get_u32_le(lump, 0) as i32;
    if count < 0 {
        assert(resolved_view(out@) =~= spec);
        return out;
    }
    let cap = (lump.len() - 4) / 4;
    let num = if (count as usize) < cap {
        count as usize
    } else {
        cap
    };
    let ghost offs = miptex_offsets(lv);
    assert(offs.len() == num);
    let mut k: usize = 0;
    while k < num
        invariant
            lv == lump@,
            offs == miptex_offsets(lv),
            spec == spec_resolve_textures(lv, wads@),
            offs.len() == num,
            num <= cap,
            cap == (lv.len() - 4) / 4,
            lv.len() >= 4,
            lv.len() <= usize::MAX,
            k <= num,
            resolved_view(out@) == spec.take(k as int),
        decreases num - k,
    {
        assert(4 + 4 * k + 4 <= lv.len()) by (nonlinear_arith)
            requires
                k < num,
                num <= cap,
                cap == (lv.len() - 4) / 4,
                lv.len() >= 4,
        ;
        let ofs = get_u32_le(lump, 4 + 4 * k) as i32;
        assert(ofs == offs[k as int]);
        let t = resolve_one(lump, ofs, wads);
        let ghost before = resolved_view(out@);
        assert(spec[k as int] == resolve_at(lv, offs[k as int], wads@));
        out.push(t);
        assert(resolved_view(out@) =~= before.push(t@));
        assert(spec.take(k + 1) =~= spec.take(k as int).push(spec[k as int]));
        assert(resolved_view(out@) =~= spec.take(k + 1));
        k = k + 1;
    }
    assert(spec.take(num as int) =~= spec);
    out
}


// ---------------------------------------------------------------------------
// Lightmap atlas packing
// ---------------------------------------------------------------------------

/// A shelf packer over a fixed-width atlas: blocks are placed left to right
/// with one texel of padding, and a block that does not fit starts a new
/// shelf below the tallest block of the current one.
pub struct ShelfPacker {
    width: u32,
    cursor_x: u32,
    cursor_y: u32,
    shelf_h: u32,
}

/// The state of a shelf packer.
pub struct PackerView {
    pub width: u32,
    pub cursor_x: u32,
    pub cursor_y: u32,
    pub shelf_h: u32,
}

impl View for ShelfPacker {
    type V = PackerView;

    closed spec fn view(&self) -> PackerView {
        PackerView {
            width: self.width,
            cursor_x: self.cursor_x,
            cursor_y: self.cursor_y,
            shelf_h: self.shelf_h,
        }
    }
}

/// Whether a `w`-wide block starts a new shelf.
pub open spec fn wraps(p: PackerView, w: u32) -> bool {
    p.cursor_x + w + 1 > p.width
}

/// Where a `w`×`h` block goes.
pub open spec fn placed_at(p: PackerView, w: u32) -> (u32, u32) {
    if wraps(p, w) {
        (0, (p.cursor_y + p.shelf_h) as u32)
    } else {
        (p.cursor_x, p.cursor_y)
    }
}

/// The packer after placing a `w`×`h` block.
pub open spec fn after_place(p: PackerView, w: u32, h: u32) -> PackerView {
    let (x, y) = placed_at(p, w);
    let shelf = if wraps(p, w) {
        0
    } else {
        p.shelf_h
    };
    PackerView {
        width: p.width,
        cursor_x: (x + w + 1) as u32,
        cursor_y: y,
        shelf_h: if shelf > h + 1 {
            shelf
        } else {
            (h + 1) as u32
        },
    }
}

/// Whether placing a `w`×`h` block stays within `u32` coordinates.
pub open spec fn can_place(p: PackerView, w: u32, h: u32) -> bool {
    &&& p.cursor_x + w + 1 <= u32::MAX
    &&& h + 1 <= u32::MAX
    &&& wraps(p, w) ==> p.cursor_y + p.shelf_h <= u32::MAX
}

impl ShelfPacker {
    /// An empty packer for an atlas `width` texels wide.
    pub fn new(width: u32) -> (r: Self)
        ensures
            r@ == (PackerView { width, cursor_x: 0, cursor_y: 0, shelf_h: 0 }),
    {
        ShelfPacker { width, cursor_x: 0, cursor_y: 0, shelf_h: 0 }
    }

    /// Whether a `w`×`h` block can be placed without leaving `u32`
    /// coordinates.
    pub fn fits(&self, w: u32, h: u32) -> (r: bool)
        ensures
            r == can_place(self@, w, h),
    {
        let pw = match w.checked_add(1) {
            Some(p) => p,
            None => {
                return false;
            },
        };
        if self.cursor_x.checked_add(pw).is_none() || h.checked_add(1).is_none() {
            return false;
        }
        if self.cursor_x + pw > self.width {
            self.cursor_y.checked_add(self.shelf_h).is_some()
        } else {
            true
        }
    }

    /// Whether the height the placed blocks need is a `u32`.
    pub fn height_fits(&self) -> (r: bool)
        ensures
            r == (self@.cursor_y + self@.shelf_h <= u32::MAX),
    {
        self.cursor_y.checked_add(self.shelf_h).is_some()
    }

    /// Place a `w`×`h` block (with 1px padding) and return its top-left corner.
    pub fn place(&mut self, w: u32, h: u32) -> (r: (u32, u32))
        requires
            can_place(old(self)@, w, h),
        ensures
            r == placed_at(old(self)@, w),
            final(self)@ == after_place(old(self)@, w, h),
    {
        let pw = w + 1;
        if self.cursor_x + pw > self.width {
            self.cursor_y = self.cursor_y + self.shelf_h;
            self.cursor_x = 0;
            self.shelf_h = 0;
        }
        let pos = (self.cursor_x, self.cursor_y);
        self.cursor_x = self.cursor_x + pw;
        if h + 1 > self.shelf_h {
            self.shelf_h = h + 1;
        }
        pos
    }

    /// The atlas height the placed blocks need: at least one texel.
    pub fn height(&self) -> (r: u32)
        requires
            self@.cursor_y + self@.shelf_h <= u32::MAX,
        ensures
            r == if self@.cursor_y + self@.shelf_h > 1 {
                self@.cursor_y + self@.shelf_h
            } else {
                1
            },
    {
        let used = self.cursor_y + self.shelf_h;
        if used > 1 {
            used
        } else {
            1
        }
    }
}


/// A placed block as `(x, y, w, h)`.
pub type Block = (int, int, int, int);

/// Whether two blocks share a texel.
pub open spec fn overlap(a: Block, b: Block) -> bool {
    a.0 < b.0 + b.2 && b.0 < a.0 + a.2 && a.1 < b.1 + b.3 && b.1 < a.1 + a.3
}

/// What a packer's state says of the blocks it placed: each lies (with its
/// padding) on an earlier shelf, wholly above the cursor row, or on the
/// current shelf, left of the cursor and within the shelf's height; and no
/// two of them overlap.
pub open spec fn packed_apart(p: PackerView, placed: Seq<Block>) -> bool {
    &&& forall|i: int|
        0 <= i < placed.len() ==> {
            let r = #[trigger] placed[i];
            &&& r.2 >= 0
            &&& r.3 >= 0
            &&& (r.1 + r.3 + 1 <= p.cursor_y || (r.1 == p.cursor_y && r.0 + r.2 + 1 <= p.cursor_x
                && r.3 + 1 <= p.shelf_h))
        }
    &&& forall|i: int, j: int|
        0 <= i < j < placed.len() ==> !overlap(#[trigger] placed[i], #[trigger] placed[j])
}

/// A fresh packer has placed nothing.
pub proof fn lemma_new_packer_apart(width: u32)
    ensures
        packed_apart(PackerView { width, cursor_x: 0, cursor_y: 0, shelf_h: 0 }, Seq::empty()),
{
}

/// Every block narrower than the atlas lies inside the atlas width, its
/// one-texel gutter included. A block that fits on the current shelf goes
/// at the cursor; one that does not starts a new shelf at the left edge,
/// just below the current shelf.
pub proof fn lemma_place_within_width(p: PackerView, w: u32)
    ensures
        w + 1 <= p.width ==> placed_at(p, w).0 + w + 1 <= p.width,
        p.cursor_x + w + 1 <= p.width ==> placed_at(p, w) == (p.cursor_x, p.cursor_y),
        p.cursor_x + w + 1 > p.width && p.cursor_y + p.shelf_h <= u32::MAX ==> placed_at(p, w)
            == (0u32, (p.cursor_y + p.shelf_h) as u32),
{
}

/// Blocks a shelf packer places never overlap: placing a block keeps every
/// block placed before it clear of it, and the state keeps describing all of
/// them.
pub proof fn lemma_place_keeps_blocks_apart(p: PackerView, placed: Seq<Block>, w: u32, h: u32)
    requires
        packed_apart(p, placed),
        can_place(p, w, h),
    ensures
        ({
            let (x, y) = placed_at(p, w);
            let r: Block = (x as int, y as int, w as int, h as int);
            &&& forall|i: int| 0 <= i < placed.len() ==> !overlap(#[trigger] placed[i], r)
            &&& packed_apart(after_place(p, w, h), placed.push(r))
        }),
{
    let (x, y) = placed_at(p, w);
    let r: Block = (x as int, y as int, w as int, h as int);
    let q = after_place(p, w, h);
    let np = placed.push(r);
    assert forall|i: int| 0 <= i < placed.len() implies !overlap(#[trigger] placed[i], r) by {
        let o = placed[i];
        if !(o.1 + o.3 + 1 <= p.cursor_y) {
            assert(o.1 == p.cursor_y && o.0 + o.2 + 1 <= p.cursor_x && o.3 + 1 <= p.shelf_h);
        }
    }
    assert forall|i: int| 0 <= i < np.len() implies {
        let b = #[trigger] np[i];
        &&& b.2 >= 0
        &&& b.3 >= 0
        &&& (b.1 + b.3 + 1 <= q.cursor_y || (b.1 == q.cursor_y && b.0 + b.2 + 1 <= q.cursor_x && b.3
            + 1 <= q.shelf_h))
    } by {
        if i < placed.len() {
            assert(np[i] == placed[i]);
        }
    }
    assert forall|i: int, j: int| 0 <= i < j < np.len() implies !overlap(
        #[trigger] np[i],
        #[trigger] np[j],
    ) by {
        if j < placed.len() {
            assert(np[i] == placed[i] && np[j] == placed[j]);
        } else {
            assert(np[i] == placed[i] && np[j] == r);
            assert(!overlap(placed[i], r));
        }
    }
}

// ---------------------------------------------------------------------------
// Lightmap atlas blitting
// ---------------------------------------------------------------------------

/// A packed lightmap block for one face: where it sits in the atlas, its
/// size in luxels, its luxel-space origin, and whether the face has light
/// data.
#[derive(Clone, Copy, Debug)]
pub struct LmBlock {
    pub x: u32,
    pub y: u32,
    pub w: u32,
    pub h: u32,
    pub bmin_s: i32,
    pub bmin_t: i32,
    pub lit: bool,
}

/// The most luxels a face's lightmap spans along either axis.
pub const MAX_LM_EXTENT: i32 = 256;

/// `v` limited to `[lo, hi]`.
pub open spec fn clamp_int(v: int, lo: int, hi: int) -> int {
    if v < lo {
        lo
    } else if v > hi {
        hi
    } else {
        v
    }
}

/// The luxel count along one axis of a face's lightmap, from the first and
/// last luxel its texture-space extent touches: the span, at least 1 and at
/// most `MAX_LM_EXTENT`.
pub fn lightmap_extent(bmin: i32, bmax: i32) -> (r: i32)
    requires
        i32::MIN <= bmax - bmin,
        bmax - bmin + 1 <= i32::MAX,
    ensures
        r == clamp_int(bmax - bmin + 1, 1, MAX_LM_EXTENT as int),
{
    let span = bmax - bmin + 1;
    if span < 1 {
        1
    } else if span > MAX_LM_EXTENT {
        MAX_LM_EXTENT
    } else {
        span
    }
}

/// Whether a face samples its own lightmap: it has light data (a
/// non-negative offset), is not a special surface, and its `w`×`h` RGB
/// luxels lie within the lighting lump.
pub fn face_has_lightmap(light_ofs: i32, special: bool, w: i32, h: i32, lighting_len: usize) -> (r: bool)
    requires
        1 <= w <= MAX_LM_EXTENT,
        1 <= h <= MAX_LM_EXTENT,
    ensures
        r == (light_ofs >= 0 && !special && light_ofs + w * h * 3 <= lighting_len),
{
    if light_ofs < 0 || special {
        return false;
    }
    assert(w * h <= 65536) by (nonlinear_arith)
        requires
            1 <= w <= 256,
            1 <= h <= 256,
    ;
    assert(w * h >= 1) by (nonlinear_arith)
        requires
            1 <= w,
            1 <= h,
    ;
    let need = (w * h * 3) as usize;
    light_ofs as usize + need <= lighting_len
}

/// The material of one world draw batch: named and kinded after texture
/// `mat_idx` (unnamed lit world past the end of the table), sampling that
/// texture and the first lightmap atlas.
pub fn world_material(textures: &[ResolvedTexture], mat_idx: usize) -> (m: MaterialDesc)
    ensures
        mat_idx < textures.len() ==> m.name@ == textures@[mat_idx as int].name@ && m.kind
            == textures@[mat_idx as int].kind,
        mat_idx >= textures.len() ==> m.name@ == Seq::<char>::empty() && m.kind
            == MaterialKind::BspWorldLit,
        m.base_texture == Some(mat_idx as u32),
        m.lightmap_atlas == Some(0u32),
{
    let (name, kind) = if mat_idx < textures.len() {
        (textures[mat_idx].name.as_str().to_owned(), textures[mat_idx].kind)
    } else {
        (String::new(), MaterialKind::BspWorldLit)
    };
    MaterialDesc { name, kind, base_texture: Some(mat_idx as u32), lightmap_atlas: Some(0) }
}

/// The column of the texel that byte `j` of a `aw`-wide RGBA image belongs to.
pub open spec fn texel_x(j: int, aw: int) -> int {
    (j / 4) % aw
}

/// The row of the texel that byte `j` of a `aw`-wide RGBA image belongs to.
pub open spec fn texel_y(j: int, aw: int) -> int {
    (j / 4) / aw
}

/// Whether `(px, py)` lies in the `w`×`h` rectangle at `(x, y)`.
pub open spec fn in_rect(px: int, py: int, x: int, y: int, w: int, h: int) -> bool {
    x <= px < x + w && y <= py < y + h
}

/// Whether a row-by-row sweep of the `w`-wide rectangle at `(x, y)` has
/// passed `(px, py)` once it stands at row `dy`, column `dx`.
pub open spec fn swept(px: int, py: int, x: int, y: int, w: int, dy: int, dx: int) -> bool {
    x <= px < x + w && y <= py && (py < y + dy || (py == y + dy && px < x + dx))
}

/// The image after painting the `w`×`h` rectangle at `(x, y)` opaque white
/// (clipped to the image).
pub open spec fn white_blit(old: Seq<u8>, aw: int, x: int, y: int, w: int, h: int) -> Seq<u8> {
    Seq::new(
        old.len(),
        |j: int|
            if in_rect(texel_x(j, aw), texel_y(j, aw), x, y, w, h) {
                255u8
            } else {
                old[j]
            },
    )
}

/// The first lighting byte of the luxel that lands on texel `(px, py)`.
pub open spec fn luxel_src(b: LmBlock, ofs: int, px: int, py: int) -> int {
    ofs + ((py - b.y) * b.w + (px - b.x)) * 3
}

/// The image after copying a block's RGB luxels (opaque) onto its texels;
/// texels whose luxel runs past the lighting data keep their bytes.
pub open spec fn lightmap_blit(old: Seq<u8>, aw: int, lighting: Seq<u8>, ofs: int, b: LmBlock) -> Seq<u8> {
    Seq::new(
        old.len(),
        |j: int|
            {
                let px = texel_x(j, aw);
                let py = texel_y(j, aw);
                let s = luxel_src(b, ofs, px, py);
                if in_rect(px, py, b.x as int, b.y as int, b.w as int, b.h as int) && s + 2
                    < lighting.len() {
                    if j % 4 < 3 {
                        lighting[s + j % 4]
                    } else {
                        255u8
                    }
                } else {
                    old[j]
                }
            },
    )
}

/// A byte of an `aw`×`ah` RGBA image belongs to a texel inside the image.
#[verifier::spinoff_prover]
proof fn lemma_texel_of(j: int, aw: int, ah: int)
    requires
        0 <= aw,
        0 <= ah,
        0 <= j < aw * ah * 4,
    ensures
        aw > 0,
        0 <= texel_x(j, aw) < aw,
        0 <= texel_y(j, aw) < ah,
        j / 4 == texel_y(j, aw) * aw + texel_x(j, aw),
        0 <= j % 4 < 4,
{
    assert(aw > 0) by (nonlinear_arith)
        requires
            0 <= aw,
            0 <= ah,
            0 <= j < aw * ah * 4,
    ;
    let p = j / 4;
    vstd::arithmetic::div_mod::lemma_fundamental_div_mod(p, aw);
    vstd::arithmetic::mul::lemma_mul_is_commutative(aw, p / aw);
    assert(p == (p / aw) * aw + p % aw);
    assert(p < aw * ah);
    assert(0 <= p % aw < aw) by {
        vstd::arithmetic::div_mod::lemma_mod_pos_bound(p, aw);
    }
    assert(p / aw >= 0) by {
        vstd::arithmetic::div_mod::lemma_div_pos_is_pos(p, aw);
    }
    assert(p / aw < ah) by (nonlinear_arith)
        requires
            p == aw * (p / aw) + p % aw,
            p % aw >= 0,
            p < aw * ah,
            aw > 0,
    ;
}

/// The bytes of texel `(px, py)` of an `aw`-wide image map back to it.
proof fn lemma_bytes_of_texel(px: int, py: int, aw: int, c: int)
    requires
        aw > 0,
        0 <= px < aw,
        0 <= py,
        0 <= c < 4,
    ensures
        texel_x((py * aw + px) * 4 + c, aw) == px,
        texel_y((py * aw + px) * 4 + c, aw) == py,
        ((py * aw + px) * 4 + c) % 4 == c,
        ((py * aw + px) * 4 + c) / 4 == py * aw + px,
{
    let j = (py * aw + px) * 4 + c;
    vstd::arithmetic::div_mod::lemma_fundamental_div_mod_converse(j, 4, py * aw + px, c);
    vstd::arithmetic::div_mod::lemma_fundamental_div_mod_converse(py * aw + px, aw, py, px);
}

/// Paint the `w`×`h` rectangle at `(x, y)` of the atlas opaque white,
/// clipped to the atlas.
pub fn blit_white(atlas: &mut TextureData, x: u32, y: u32, w: u32, h: u32)
    requires
        old(atlas).rgba@.len() == old(atlas).width * old(atlas).height * 4,
        old(atlas).width * old(atlas).height * 4 <= u32::MAX + 1,
        w > 0 && h > 0 ==> x + w - 1 <= u32::MAX && y + h - 1 <= u32::MAX,
    ensures
        final(atlas).width == old(atlas).width,
        final(atlas).height == old(atlas).height,
        final(atlas).rgba@ == white_blit(old(atlas).rgba@, old(atlas).width as int, x as int, y as int, w as int, h as int),
{
    let ghost old_rgba = atlas.rgba@;
    let aw = atlas.width;
    let ah = atlas.height;
    let mut dy: u32 = 0;
    while dy < h
        invariant
            atlas.width == aw,
            atlas.height == ah,
            old_rgba.len() == aw * ah * 4,
            aw * ah * 4 <= u32::MAX + 1,
            atlas.rgba@.len() == old_rgba.len(),
            w > 0 && h > 0 ==> x + w - 1 <= u32::MAX && y + h - 1 <= u32::MAX,
            dy <= h,
            forall|j: int|
                0 <= j < old_rgba.len() ==> #[trigger] atlas.rgba@[j] == if swept(
                    texel_x(j, aw as int),
                    texel_y(j, aw as int),
                    x as int,
                    y as int,
                    w as int,
                    dy as int,
                    0,
                ) {
                    255u8
                } else {
                    old_rgba[j]
                },
        decreases h - dy,
    {
        let mut dx: u32 = 0;
        while dx < w
            invariant
                atlas.width == aw,
                atlas.height == ah,
                old_rgba.len() == aw * ah * 4,
                aw * ah * 4 <= u32::MAX + 1,
                atlas.rgba@.len() == old_rgba.len(),
                w > 0 ==> x + w - 1 <= u32::MAX && y + h - 1 <= u32::MAX,
                dy < h,
                dx <= w,
                forall|j: int|
                    0 <= j < old_rgba.len() ==> #[trigger] atlas.rgba@[j] == if swept(
                        texel_x(j, aw as int),
                        texel_y(j, aw as int),
                        x as int,
                        y as int,
                        w as int,
                        dy as int,
                        dx as int,
                    ) {
                        255u8
                    } else {
                        old_rgba[j]
                    },
            decreases w - dx,
        {
            let px = x + dx;
            let py = y + dy;
            let ghost before = atlas.rgba@;
            if px < aw && py < ah {
                assert((py * aw + px) * 4 + 3 < aw * ah * 4) by (nonlinear_arith)
                    requires
                        px < aw,
                        py < ah,
                ;
                let o = ((py * aw + px) * 4) as usize;
                atlas.rgba.set(o, 255);
                atlas.rgba.set(o + 1, 255);
                atlas.rgba.set(o + 2, 255);
                atlas.rgba.set(o + 3, 255);
                proof {
                    assert forall|j: int| 0 <= j < old_rgba.len() implies #[trigger] atlas.rgba@[j]
                        == if swept(
                        texel_x(j, aw as int),
                        texel_y(j, aw as int),
                        x as int,
                        y as int,
                        w as int,
                        dy as int,
                        dx + 1,
                    ) {
                        255u8
                    } else {
                        old_rgba[j]
                    } by {
                        lemma_texel_of(j, aw as int, ah as int);
                        lemma_bytes_of_texel(px as int, py as int, aw as int, 0);
                        if o <= j < o + 4 {
                            lemma_bytes_of_texel(px as int, py as int, aw as int, j - o);
                        }
                    }
                }
            } else {
                proof {
                    assert forall|j: int| 0 <= j < old_rgba.len() implies #[trigger] atlas.rgba@[j]
                        == if swept(
                        texel_x(j, aw as int),
                        texel_y(j, aw as int),
                        x as int,
                        y as int,
                        w as int,
                        dy as int,
                        dx + 1,
                    ) {
                        255u8
                    } else {
                        old_rgba[j]
                    } by {
                        lemma_texel_of(j, aw as int, ah as int);
                    }
                }
            }
            dx = dx + 1;
        }
        dy = dy + 1;
    }
    proof {
        assert forall|j: int| 0 <= j < old_rgba.len() implies #[trigger] atlas.rgba@[j]
            == white_blit(old_rgba, aw as int, x as int, y as int, w as int, h as int)[j] by {
            lemma_texel_of(j, aw as int, ah as int);
        }
    }
    assert(atlas.rgba@ =~= white_blit(old_rgba, aw as int, x as int, y as int, w as int, h as int));
}


/// The value byte `j` holds once a lightmap sweep has reached row `dy`,
/// column `dx` of the block.
pub open spec fn lightmap_partial(
    old: Seq<u8>,
    aw: int,
    lighting: Seq<u8>,
    ofs: int,
    b: LmBlock,
    dy: int,
    dx: int,
    j: int,
) -> u8 {
    let px = texel_x(j, aw);
    let py = texel_y(j, aw);
    let s = luxel_src(b, ofs, px, py);
    if swept(px, py, b.x as int, b.y as int, b.w as int, dy, dx) && s + 2 < lighting.len() {
        if j % 4 < 3 {
            lighting[s + j % 4]
        } else {
            255u8
        }
    } else {
        old[j]
    }
}

/// Copy a face's RGB luxels, starting at byte `ofs` of the lighting lump,
/// onto its block of the atlas as opaque texels; luxels past the end of the
/// lighting data and texels outside the atlas are skipped.
pub fn blit_lightmap(atlas: &mut TextureData, lighting: &[u8], ofs: usize, block: &LmBlock)
    requires
        old(atlas).rgba@.len() == old(atlas).width * old(atlas).height * 4,
        old(atlas).width * old(atlas).height * 4 <= u32::MAX + 1,
        block.w > 0 && block.h > 0 ==> block.x + block.w - 1 <= u32::MAX && block.y + block.h - 1
            <= u32::MAX && block.w * block.h * 3 <= u32::MAX + 3 && ofs + block.w * block.h * 3
            <= usize::MAX + 1,
    ensures
        final(atlas).width == old(atlas).width,
        final(atlas).height == old(atlas).height,
        final(atlas).rgba@ == lightmap_blit(
            old(atlas).rgba@,
            old(atlas).width as int,
            lighting@,
            ofs as int,
            *block,
        ),
{
    let ghost old_rgba = atlas.rgba@;
    let aw = atlas.width;
    let ah = atlas.height;
    let bw = block.w;
    let bh = block.h;
    let mut ly: u32 = 0;
    while ly < bh
        invariant
            atlas.width == aw,
            atlas.height == ah,
            bw == block.w,
            bh == block.h,
            old_rgba.len() == aw * ah * 4,
            aw * ah * 4 <= u32::MAX + 1,
            atlas.rgba@.len() == old_rgba.len(),
            bw > 0 && bh > 0 ==> block.x + bw - 1 <= u32::MAX && block.y + bh - 1 <= u32::MAX && bw
                * bh * 3 <= u32::MAX + 3 && ofs + bw * bh * 3 <= usize::MAX + 1,
            ly <= bh,
            forall|j: int|
                0 <= j < old_rgba.len() ==> #[trigger] atlas.rgba@[j] == lightmap_partial(
                    old_rgba,
                    aw as int,
                    lighting@,
                    ofs as int,
                    *block,
                    ly as int,
                    0,
                    j,
                ),
        decreases bh - ly,
    {
        let mut lx: u32 = 0;
        while lx < bw
            invariant
                atlas.width == aw,
                atlas.height == ah,
                bw == block.w,
                bh == block.h,
                old_rgba.len() == aw * ah * 4,
                aw * ah * 4 <= u32::MAX + 1,
                atlas.rgba@.len() == old_rgba.len(),
                bw > 0 ==> block.x + bw - 1 <= u32::MAX && block.y + bh - 1 <= u32::MAX && bw * bh
                    * 3 <= u32::MAX + 3 && ofs + bw * bh * 3 <= usize::MAX + 1,
                ly < bh,
                lx <= bw,
                forall|j: int|
                    0 <= j < old_rgba.len() ==> #[trigger] atlas.rgba@[j] == lightmap_partial(
                        old_rgba,
                        aw as int,
                        lighting@,
                        ofs as int,
                        *block,
                        ly as int,
                        lx as int,
                        j,
                    ),
            decreases bw - lx,
        {
            assert(ly * bw + lx <= bw * bh - 1) by (nonlinear_arith)
                requires
                    ly < bh,
                    lx < bw,
            ;
            let src = ofs + ((ly * bw + lx) * 3) as usize;
            let px = block.x + lx;
            let py = block.y + ly;
            if src + 2 < lighting.len() && px < aw && py < ah {
                assert((py * aw + px) * 4 + 3 < aw * ah * 4) by (nonlinear_arith)
                    requires
                        px < aw,
                        py < ah,
                ;
                let o = ((py * aw + px) * 4) as usize;
                atlas.rgba.set(o, lighting[src]);
                atlas.rgba.set(o + 1, lighting[src + 1]);
                atlas.rgba.set(o + 2, lighting[src + 2]);
                atlas.rgba.set(o + 3, 255);
                proof {
                    assert forall|j: int| 0 <= j < old_rgba.len() implies #[trigger] atlas.rgba@[j]
                        == lightmap_partial(
                        old_rgba,
                        aw as int,
                        lighting@,
                        ofs as int,
                        *block,
                        ly as int,
                        lx + 1,
                        j,
                    ) by {
                        lemma_texel_of(j, aw as int, ah as int);
                        lemma_bytes_of_texel(px as int, py as int, aw as int, 0);
                        if o <= j < o + 4 {
                            lemma_bytes_of_texel(px as int, py as int, aw as int, j - o);
                        }
                    }
                }
            } else {
                proof {
                    assert forall|j: int| 0 <= j < old_rgba.len() implies #[trigger] atlas.rgba@[j]
                        == lightmap_partial(
                        old_rgba,
                        aw as int,
                        lighting@,
                        ofs as int,
                        *block,
                        ly as int,
                        lx + 1,
                        j,
                    ) by {
                        lemma_texel_of(j, aw as int, ah as int);
                    }
                }
            }
            lx = lx + 1;
        }
        ly = ly + 1;
    }
    proof {
        assert forall|j: int| 0 <= j < old_rgba.len() implies #[trigger] atlas.rgba@[j]
            == lightmap_blit(old_rgba, aw as int, lighting@, ofs as int, *block)[j] by {
            lemma_texel_of(j, aw as int, ah as int);
        }
    }
    assert(atlas.rgba@ =~= lightmap_blit(old_rgba, aw as int, lighting@, ofs as int, *block));
}


// ---------------------------------------------------------------------------
// Face polygons
// ---------------------------------------------------------------------------

/// The vertex that surf-edge `se_idx` starts at: a non-negative surf-edge
/// names an edge walked forward (its first vertex), a negative one the edge
/// `-se` walked backward (its second vertex). `None` when any index is out
/// of range.
pub open spec fn corner_vertex(
    surf: Seq<i32>,
    edges: Seq<Edge>,
    verts: Seq<RawVec3>,
    se_idx: int,
) -> Option<RawVec3> {
    if se_idx < 0 || se_idx >= surf.len() {
        None
    } else {
        let se = surf[se_idx];
        let e = if se >= 0 {
            se as int
        } else {
            -(se as int)
        };
        if e >= edges.len() {
            None
        } else {
            let v = if se >= 0 {
                edges[e].v@[0]
            } else {
                edges[e].v@[1]
            };
            if v >= verts.len() {
                None
            } else {
                Some(verts[v as int])
            }
        }
    }
}

/// The corners of face `face_idx`, in winding order, or `None` when its
/// texinfo or any of its edges, surf-edges or vertices is missing.
pub open spec fn spec_face_polygon(raw: RawBsp, face_idx: int) -> Option<Seq<RawVec3>> {
    let f = raw.faces@[face_idx];
    let c = |k: int| corner_vertex(raw.surf_edges@, raw.edges@, raw.vertices@, f.first_edge + k);
    if f.texinfo >= raw.texinfos@.len() {
        None
    } else if exists|k: int| 0 <= k < f.num_edges && (#[trigger] c(k)) is None {
        None
    } else {
        Some(Seq::new(f.num_edges as nat, |k: int| c(k)->0))
    }
}

/// Walk a face's surf-edges to its polygon corners.
pub fn face_polygon(raw: &RawBsp, face_idx: usize) -> (r: Option<Vec<RawVec3>>)
    requires
        face_idx < raw.faces@.len(),
    ensures
        match (r, spec_face_polygon(*raw, face_idx as int)) {
            (Some(v), Some(s)) => v@ == s,
            (None, None) => true,
            _ => false,
        },
{
    let face = raw.faces[face_idx];
    let ghost c = |k: int|
        corner_vertex(raw.surf_edges@, raw.edges@, raw.vertices@, face.first_edge + k);
    if face.texinfo as usize >= raw.texinfos.len() {
        return None;
    }
    let n = face.num_edges as usize;
    let mut out: Vec<RawVec3> = Vec::new();
    let mut i: usize = 0;
    while i < n
        invariant
            face == raw.faces@[face_idx as int],
            n == face.num_edges,
            i <= n,
            c == (|k: int|
                corner_vertex(raw.surf_edges@, raw.edges@, raw.vertices@, face.first_edge + k)),
            out@.len() == i,
            forall|k: int| 0 <= k < i ==> (#[trigger] c(k)) is Some && out@[k] == c(k)->0,
        decreases n - i,
    {
        let se_idx = face.first_edge as u64 + i as u64;
        if se_idx >= raw.surf_edges.len() as u64 {
            assert(c(i as int) is None);
            return None;
        }
        let se = raw.surf_edges[se_idx as usize];
        let e: u64 = if se >= 0 {
            se as u64
        } else {
            (-(se as i64)) as u64
        };
        if e >= raw.edges.len() as u64 {
            assert(c(i as int) is None);
            return None;
        }
        let edge = raw.edges[e as usize];
        let v = if se >= 0 {
            edge.v[0]
        } else {
            edge.v[1]
        };
        if v as usize >= raw.vertices.len() {
            assert(c(i as int) is None);
            return None;
        }
        out.push(raw.vertices[v as usize]);
        assert(c(i as int) == Some(raw.vertices@[v as int]));
        i = i + 1;
    }
    assert(out@ =~= Seq::new(face.num_edges as nat, |k: int| c(k)->0));
    Some(out)
}


// ---------------------------------------------------------------------------
// Static collision
// ---------------------------------------------------------------------------

/// One collision triangle: three corners.
pub type Tri = (RawVec3, RawVec3, RawVec3);

/// The fan triangulation of a convex polygon around its first corner;
/// polygons with fewer than three corners give none.
pub open spec fn fan(poly: Seq<RawVec3>) -> Seq<Tri> {
    if poly.len() < 3 {
        Seq::empty()
    } else {
        Seq::new((poly.len() - 2) as nat, |i: int| (poly[0], poly[i + 1], poly[i + 2]))
    }
}

/// The triangles of one face.
pub open spec fn face_tris(raw: RawBsp, fi: int) -> Seq<Tri> {
    match spec_face_polygon(raw, fi) {
        None => Seq::empty(),
        Some(p) => fan(p),
    }
}

/// The triangles of `count` faces starting at `first`, face by face.
pub open spec fn tris_of_faces(raw: RawBsp, first: int, count: nat) -> Seq<Tri>
    decreases count,
{
    if count == 0 {
        Seq::empty()
    } else {
        tris_of_faces(raw, first, (count - 1) as nat) + face_tris(raw, first + count - 1)
    }
}

/// The collision triangles of a model: those of its faces, or none for a
/// model index past the models lump.
pub open spec fn spec_collision_triangles(raw: RawBsp, model_index: int) -> Seq<Tri> {
    if model_index < 0 || model_index >= raw.models@.len() {
        Seq::empty()
    } else {
        let m = raw.models@[model_index];
        tris_of_faces(raw, m.first_face as int, m.num_faces as nat)
    }
}

/// Static collision for `model_index` as a triangle soup: every face of the
/// model fan-triangulated.
pub fn collision_triangles(raw: &RawBsp, model_index: usize) -> (r: Vec<Tri>)
    requires
        model_index < raw.models@.len() ==> raw.models@[model_index as int].first_face
            + raw.models@[model_index as int].num_faces <= raw.faces@.len(),
    ensures
        r@ == spec_collision_triangles(*raw, model_index as int),
{
    let mut out: Vec<Tri> = Vec::new();
    if model_index >= raw.models.len() {
        assert(out@ =~= spec_collision_triangles(*raw, model_index as int));
        return out;
    }
    let model = raw.models[model_index];
    let first = model.first_face as usize;
    let count = model.num_faces as usize;
    let nfaces = raw.faces.len();
    assert(raw.faces@.len() == nfaces);
    let mut k: usize = 0;
    assert(out@ =~= tris_of_faces(*raw, first as int, 0));
    while k < count
        invariant
            model_index < raw.models@.len(),
            model == raw.models@[model_index as int],
            raw.faces@.len() <= usize::MAX,
            first == model.first_face,
            count == model.num_faces,
            first + count <= raw.faces@.len(),
            k <= count,
            out@ == tris_of_faces(*raw, first as int, k as nat),
        decreases count - k,
    {
        let fi = first + k;
        let ghost before = out@;
        match face_polygon(raw, fi) {
            None => {
                assert(face_tris(*raw, fi as int) =~= Seq::<Tri>::empty());
                assert(before + face_tris(*raw, fi as int) =~= before);
            },
            Some(p) => {
                if p.len() >= 3 {
                    let mut i: usize = 1;
                    while i + 1 < p.len()
                        invariant
                            p@.len() >= 3,
                            1 <= i <= p@.len() - 1,
                            out@ == before + fan(p@).take(i - 1),
                        decreases p@.len() - i,
                    {
                        out.push((p[0], p[i], p[i + 1]));
                        assert(fan(p@).take(i as int) =~= fan(p@).take(i - 1).push(
                            (p@[0], p@[i as int], p@[i + 1]),
                        ));
                        i = i + 1;
                    }
                    assert(fan(p@).take(i - 1) =~= fan(p@));
                } else {
                    assert(before + fan(p@) =~= before);
                }
            },
        }
        assert(out@ =~= tris_of_faces(*raw, first as int, (k + 1) as nat));
        k = k + 1;
    }
    out
}


// ---------------------------------------------------------------------------
// Draw batching
// ---------------------------------------------------------------------------

/// The bucket a face with miptex `m` is batched into: its own, or the last
/// one when `m` is past the texture table (there is always one bucket).
pub open spec fn bucket_of(m: usize, num_tex: usize) -> int {
    let buckets = if num_tex > 1 {
        num_tex as int
    } else {
        1
    };
    if m < buckets - 1 {
        m as int
    } else {
        buckets - 1
    }
}

/// The faces among the first `k` whose bucket is `b`, in order.
pub open spec fn bucket_members(miptex: Seq<usize>, num_tex: usize, b: int, k: int) -> Seq<usize>
    decreases k,
{
    if k <= 0 || k > miptex.len() {
        Seq::empty()
    } else if bucket_of(miptex[k - 1], num_tex) == b {
        bucket_members(miptex, num_tex, b, k - 1).push((k - 1) as usize)
    } else {
        bucket_members(miptex, num_tex, b, k - 1)
    }
}

/// Group faces by material: one bucket per texture (at least one), each
/// listing, in order, the faces whose miptex selects it; a miptex past the
/// table falls into the last bucket.
pub fn bucket_faces(miptex: &[usize], num_tex: usize) -> (r: Vec<Vec<usize>>)
    ensures
        r@.len() == if num_tex > 1 {
            num_tex as int
        } else {
            1
        },
        forall|b: int|
            0 <= b < r@.len() ==> (#[trigger] r@[b])@ == bucket_members(
                miptex@,
                num_tex,
                b,
                miptex@.len() as int,
            ),
{
    let buckets: usize = if num_tex > 1 {
        num_tex
    } else {
        1
    };
    let mut out: Vec<Vec<usize>> = Vec::new();
    let mut b: usize = 0;
    while b < buckets
        invariant
            buckets == (if num_tex > 1 {
                num_tex as int
            } else {
                1
            }),
            b <= buckets,
            out@.len() == b,
            forall|c: int|
                0 <= c < b ==> (#[trigger] out@[c])@ == bucket_members(
                    miptex@,
                    num_tex,
                    c,
                    miptex@.len() as int,
                ),
        decreases buckets - b,
    {
        let mut members: Vec<usize> = Vec::new();
        let mut i: usize = 0;
        while i < miptex.len()
            invariant
                buckets == (if num_tex > 1 {
                    num_tex as int
                } else {
                    1
                }),
                b < buckets,
                i <= miptex@.len(),
                members@ == bucket_members(miptex@, num_tex, b as int, i as int),
            decreases miptex@.len() - i,
        {
            let m = miptex[i];
            let slot = if m < buckets - 1 {
                m
            } else {
                buckets - 1
            };
            if slot == b {
                members.push(i);
            }
            i = i + 1;
        }
        out.push(members);
        b = b + 1;
    }
    out
}

/// The triangle-fan indices of an `n`-corner polygon whose corners are the
/// vertices `base..base + n`: `(base, base + t, base + t + 1)` for each
/// `t` in `1..n - 1`.
pub open spec fn fan_indices(base: u32, n: u32) -> Seq<u32> {
    Seq::new(
        (if n >= 2 {
            3 * (n - 2)
        } else {
            0
        }) as nat,
        |j: int|
            if j % 3 == 0 {
                base
            } else if j % 3 == 1 {
                (base + j / 3 + 1) as u32
            } else {
                (base + j / 3 + 2) as u32
            },
    )
}

/// Append the triangle-fan indices of an `n`-corner polygon starting at
/// vertex `base`.
pub fn push_fan_indices(indices: &mut Vec<u32>, base: u32, n: u32)
    requires
        n >= 1,
        base + n <= u32::MAX + 1,
    ensures
        final(indices)@ == old(indices)@ + fan_indices(base, n),
{
    let ghost start = indices@;
    let ghost f = fan_indices(base, n);
    let mut i: u32 = 1;
    while i < n - 1
        invariant
            n >= 1,
            base + n <= u32::MAX + 1,
            f == fan_indices(base, n),
            1 <= i <= n,
            n >= 2 ==> i <= n - 1,
            n >= 2 ==> f.len() == 3 * (n - 2),
            3 * (i - 1) <= f.len(),
            indices@ == start + f.take(3 * (i - 1)),
        decreases n - i,
    {
        indices.push(base);
        indices.push(base + i);
        indices.push(base + i + 1);
        proof {
            let k = 3 * (i - 1);
            assert(k / 3 == i - 1 && (k + 1) / 3 == i - 1 && (k + 2) / 3 == i - 1);
            assert(k % 3 == 0 && (k + 1) % 3 == 1 && (k + 2) % 3 == 2);
            assert(f[k] == base);
            assert(f[k + 1] == base + i);
            assert(f[k + 2] == base + i + 1);
            assert(f.take(k + 3) =~= f.take(k).push(f[k]).push(f[k + 1]).push(f[k + 2]));
            assert(indices@ =~= start + f.take(3 * i));
        }
        i = i + 1;
    }
    proof {
        if n >= 2 {
            assert(i == n - 1);
        }
        assert(f.take(3 * (i - 1)) =~= f);
    }
}

} // verus!
