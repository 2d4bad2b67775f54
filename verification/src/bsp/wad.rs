//! WAD3 texture archives and 8-bit paletted miptex → RGBA decoding.
//!
//! A miptex is a 16-byte name, width/height, four mip offsets, the four mip
//! levels (8-bit palette indices), then a `u16` palette count and the RGB
//! palette. Textures whose name starts with `{` are colour-keyed: palette
//! index 255 is transparent.
use vstd::prelude::*;
use vstd::utf8::encode_utf8;
use crate::bsp::BspError;
use crate::bsp::reader::{nul_padded_name, short_read, Reader};
use crate::le::{get_u16_le, le_u16_at, le_u32_at};
use crate::text::{
    ascii_lower, ascii_upper, lemma_ascii_upper_absorbs, str_eq, str_starts_with_byte,
    str_to_ascii_uppercase,
};
use crate::texture::TextureData;

verus! {

/// A parsed miptex header (also used for embedded BSP textures).
#[derive(Clone, Debug)]
pub struct MipTexHeader {
    pub name: String,
    pub width: u32,
    pub height: u32,
    /// Byte offsets (relative to the miptex start) of each mip level, or 0 if
    /// the texture data lives in an external WAD.
    pub offsets: [u32; 4],
}

/// The read that fails first when a miptex header of `len` bytes is short.
pub open spec fn miptex_header_short(b: Seq<u8>) -> BspError {
    if b.len() < 16 {
        short_read(b, 0, 16)
    } else {
        short_read(b, (4 * (b.len() / 4)) as usize, 4)
    }
}

/// The header fields read from a miptex buffer of at least 40 bytes.
pub open spec fn miptex_header_ok(h: MipTexHeader, b: Seq<u8>) -> bool {
    &&& h.name@ == nul_padded_name(b.subrange(0, 16))
    &&& h.width == le_u32_at(b, 16)
    &&& h.height == le_u32_at(b, 20)
    &&& forall|k: int| 0 <= k < 4 ==> #[trigger] h.offsets@[k] == le_u32_at(b, 24 + 4 * k)
}

impl MipTexHeader {
    /// Parse the 40-byte miptex header.
    pub fn parse(bytes: &[u8]) -> (r: Result<MipTexHeader, BspError>)
        ensures
            bytes@.len() >= 40 ==> (r matches Ok(h) && miptex_header_ok(h, bytes@)),
            bytes@.len() < 40 ==> r == Err::<MipTexHeader, BspError>(miptex_header_short(bytes@)),
    {
        let mut r = Reader::new(bytes);
        let name = r.fixed_str(16)?;
        let width = r.u32()?;
        let height = r.u32()?;
        let o0 = r.u32()?;
        let o1 = r.u32()?;
        let o2 = r.u32()?;
        let o3 = r.u32()?;
        let h = MipTexHeader { name, width, height, offsets: [o0, o1, o2, o3] };
        assert(h.offsets@[0] == o0 && h.offsets@[1] == o1 && h.offsets@[2] == o2 && h.offsets@[3]
            == o3);
        Ok(h)
    }

    /// Whether pixel data is embedded here (true) or lives in a WAD (false).
    pub fn has_embedded_pixels(&self) -> (r: bool)
        ensures
            r == (self.offsets@[0] != 0),
    {
        self.offsets[0] != 0
    }
}

/// The RGBA of one texel: transparent black for index 255 of a colour-keyed
/// texture, the palette colour when the palette has it, magenta otherwise.
pub open spec fn texel_rgba(idx: u8, palette: Seq<u8>, keyed: bool) -> Seq<u8> {
    if keyed && idx == 255 {
        seq![0u8, 0u8, 0u8, 0u8]
    } else if idx * 3 + 2 < palette.len() {
        seq![palette[idx * 3], palette[idx * 3 + 1], palette[idx * 3 + 2], 255u8]
    } else {
        seq![255u8, 0u8, 255u8, 255u8]
    }
}

/// Whether a texture name asks for colour keying (its first byte is `{`).
pub open spec fn is_color_keyed(name: Seq<char>) -> bool {
    encode_utf8(name).len() > 0 && encode_utf8(name)[0] == 0x7B
}

/// What decoding a miptex yields: its size and RGBA texels, or the first
/// check it fails.
pub open spec fn spec_decode_miptex(b: Seq<u8>, keyed: bool) -> Result<(u32, u32, Seq<u8>), BspError> {
    if b.len() < 40 {
        Err(miptex_header_short(b))
    } else {
        let w = le_u32_at(b, 16);
        let h = le_u32_at(b, 20);
        let mip0 = le_u32_at(b, 24);
        let mip3 = le_u32_at(b, 36);
        let n = w * h;
        let mip3_len = (if w / 8 > 1 { w / 8 } else { 1 }) * (if h / 8 > 1 { h / 8 } else { 1 });
        let pal_count_ofs = mip3 + mip3_len;
        if w == 0 || h == 0 || w > 4096 || h > 4096 {
            Err(BspError::InvalidDimensions { width: w as u32, height: h as u32 })
        } else if mip0 == 0 {
            Err(BspError::NoEmbeddedPixels)
        } else if mip0 + n > b.len() {
            Err(BspError::Mip0OutOfRange)
        } else if pal_count_ofs + 2 > b.len() {
            Err(BspError::PaletteHeaderOutOfRange)
        } else {
            let stored = le_u16_at(b, pal_count_ofs);
            let pal_count = if stored > 256 { 256 } else { stored };
            let pal_ofs = pal_count_ofs + 2;
            if pal_ofs + pal_count * 3 > b.len() {
                Err(BspError::PaletteOutOfRange)
            } else {
                let palette = b.subrange(pal_ofs, pal_ofs + pal_count * 3);
                Ok(
                    (
                        w as u32,
                        h as u32,
                        Seq::new(
                            (n * 4) as nat,
                            |j: int| texel_rgba(b[mip0 + j / 4], palette, keyed)[j % 4],
                        ),
                    ),
                )
            }
        }
    }
}

/// Decode a full miptex lump (header + mip0 + palette) into an RGBA texture.
/// `lookup_name` decides colour keying (`{`-prefixed names).
pub fn decode_miptex(bytes: &[u8], lookup_name: &str) -> (r: Result<TextureData, BspError>)
    ensures
        match (r, spec_decode_miptex(bytes@, is_color_keyed(lookup_name@))) {
            (Ok(t), Ok((w, h, rgba))) => t.width == w && t.height == h && t.rgba@ == rgba,
            (Err(x), Err(y)) => x == y,
            _ => false,
        },
{
    let len = bytes.len();
    let hdr = MipTexHeader::parse(bytes)?;
    let w = hdr.width;
    let h = hdr.height;
    if w == 0 || h == 0 || w > 4096 || h > 4096 {
        return Err(BspError::InvalidDimensions { width: w, height: h });
    }
    if !hdr.has_embedded_pixels() {
        return Err(BspError::NoEmbeddedPixels);
    }
    assert(hdr.offsets@[0] == le_u32_at(bytes@, 24));
    assert(hdr.offsets@[3] == le_u32_at(bytes@, 36));
    let mip0_ofs = hdr.offsets[0] as usize;
    assert(w * h <= 4096 * 4096) by (nonlinear_arith)
        requires
            w <= 4096,
            h <= 4096,
    ;
    let n = (w * h) as usize;
    if mip0_ofs > len || n > len - mip0_ofs {
        return Err(BspError::Mip0OutOfRange);
    }
    let mip3_ofs = hdr.offsets[3] as usize;
    let wd = if w / 8 > 1 {
        w / 8
    } else {
        1
    };
    let hd = if h / 8 > 1 {
        h / 8
    } else {
        1
    };
    assert(wd * hd <= 512 * 512) by (nonlinear_arith)
        requires
            wd <= 512,
            hd <= 512,
    ;
    let mip3_len = (wd * hd) as usize;
    if mip3_ofs > len || mip3_len > len - mip3_ofs || len - mip3_ofs - mip3_len < 2 {
        return Err(BspError::PaletteHeaderOutOfRange);
    }
    let pal_count_ofs = mip3_ofs + mip3_len;
    let stored = get_u16_le(bytes, pal_count_ofs) as usize;
    let pal_count = if stored > 256 {
        256
    } else {
        stored
    };
    let pal_ofs = pal_count_ofs + 2;
    if pal_count * 3 > len - pal_ofs {
        return Err(BspError::PaletteOutOfRange);
    }
    let palette = &bytes[pal_ofs..pal_ofs + pal_count * 3];
    let indices = &bytes[mip0_ofs..mip0_ofs + n];
    let keyed = str_starts_with_byte(lookup_name, 0x7B);
    let ghost spec_rgba = Seq::new(
        (n * 4) as nat,
        |j: int| texel_rgba(bytes@[mip0_ofs + j / 4], palette@, keyed)[j % 4],
    );
    let mut rgba = vec![0u8; n * 4];
    let mut i: usize = 0;
    while i < n
        invariant
            i <= n,
            n <= 4096 * 4096,
            rgba@.len() == n * 4,
            indices@.len() == n,
            forall|k: int| 0 <= k < n ==> #[trigger] indices@[k] == bytes@[mip0_ofs + k],
            forall|j: int| 0 <= j < i * 4 ==> #[trigger] rgba@[j] == spec_rgba[j],
            spec_rgba == Seq::new(
                (n * 4) as nat,
                |j: int| texel_rgba(bytes@[mip0_ofs + j / 4], palette@, keyed)[j % 4],
            ),
        decreases n - i,
    {
        let idx = indices[i];
        let pi = idx as usize;
        let (r, g, b, a) = if keyed && idx == 255 {
            (0u8, 0u8, 0u8, 0u8)
        } else if pi * 3 + 2 < palette.len() {
            (palette[pi * 3], palette[pi * 3 + 1], palette[pi * 3 + 2], 255u8)
        } else {
            (255u8, 0u8, 255u8, 255u8)
        };
        let o = i * 4;
        rgba.set(o, r);
        rgba.set(o + 1, g);
        rgba.set(o + 2, b);
        rgba.set(o + 3, a);
        proof {
            let t = texel_rgba(idx, palette@, keyed);
            assert forall|j: int| 0 <= j < (i + 1) * 4 implies #[trigger] rgba@[j] == spec_rgba[j] by {
                if j >= i * 4 {
                    assert(j / 4 == i);
                    assert(bytes@[mip0_ofs + j / 4] == idx);
                    assert(rgba@[j] == t[j % 4]);
                }
            }
        }
        i = i + 1;
    }
    assert(rgba@ =~= spec_rgba);
    Ok(TextureData::from_rgba(w, h, rgba))
}

/// A table from texture name to raw miptex bytes, in insertion order.
pub type TextureTable = Seq<(Seq<char>, Seq<u8>)>;

/// The position of `key` in a table, searching from `from`.
pub open spec fn table_index_from(t: TextureTable, key: Seq<char>, from: int) -> Option<int>
    decreases t.len() - from,
{
    if from < 0 || from >= t.len() {
        None
    } else if t[from].0 == key {
        Some(from)
    } else {
        table_index_from(t, key, from + 1)
    }
}

/// The position of `key` in a table.
pub open spec fn table_index(t: TextureTable, key: Seq<char>) -> Option<int> {
    table_index_from(t, key, 0)
}

/// The bytes stored under `key`.
pub open spec fn table_get(t: TextureTable, key: Seq<char>) -> Option<Seq<u8>> {
    match table_index(t, key) {
        Some(i) => Some(t[i].1),
        None => None,
    }
}

/// Store `value` under `key`, replacing what was there.
pub open spec fn table_insert(t: TextureTable, key: Seq<char>, value: Seq<u8>) -> TextureTable {
    match table_index(t, key) {
        Some(i) => t.update(i, (key, value)),
        None => t.push((key, value)),
    }
}

/// Store `value` under `key` only if the key is new.
pub open spec fn table_insert_absent(t: TextureTable, key: Seq<char>, value: Seq<u8>) -> TextureTable {
    match table_index(t, key) {
        Some(_) => t,
        None => t.push((key, value)),
    }
}

/// No key occurs twice.
pub open spec fn table_keys_unique(t: TextureTable) -> bool {
    forall|i: int, j: int| 0 <= i < j < t.len() ==> t[i].0 != t[j].0
}

/// `a` with the entries of `b` whose keys it lacks added, in `b`'s order.
pub open spec fn table_merge(a: TextureTable, b: TextureTable) -> TextureTable
    decreases b.len(),
{
    if b.len() == 0 {
        a
    } else {
        let m = table_merge(a, b.drop_last());
        table_insert_absent(m, b.last().0, b.last().1)
    }
}

/// Directory entry type for a miptex lump.
pub const TYP_MIPTEX: u8 = 0x43;

/// The read that fails first when a 32-byte directory entry at `pos` is short.
pub open spec fn dir_entry_short(data: Seq<u8>, pos: int) -> BspError {
    if pos + 4 > data.len() {
        short_read(data, pos as usize, 4)
    } else if pos + 8 > data.len() {
        short_read(data, (pos + 4) as usize, 4)
    } else if pos + 12 > data.len() {
        short_read(data, (pos + 8) as usize, 4)
    } else if pos + 13 > data.len() {
        short_read(data, (pos + 12) as usize, 1)
    } else if pos + 14 > data.len() {
        short_read(data, (pos + 13) as usize, 1)
    } else if pos + 16 > data.len() {
        short_read(data, (pos + 14) as usize, 2)
    } else {
        short_read(data, (pos + 16) as usize, 16)
    }
}

/// Read `count` directory entries from `pos` into `t`: miptex entries whose
/// data lies inside the file are stored under their upper-cased name (a
/// later entry replaces an earlier one of the same name); other entries are
/// skipped.
pub open spec fn parse_dir(data: Seq<u8>, pos: int, count: nat, t: TextureTable) -> Result<
    TextureTable,
    BspError,
>
    decreases count,
{
    if count == 0 {
        Ok(t)
    } else if pos + 32 > data.len() {
        Err(dir_entry_short(data, pos))
    } else {
        let file_pos = le_u32_at(data, pos);
        let size = ((le_u32_at(data, pos + 8) as u32) as i32) as usize;
        let typ = data[pos + 12];
        let name = ascii_upper(nul_padded_name(data.subrange(pos + 16, pos + 32)));
        if typ != TYP_MIPTEX || file_pos + size > data.len() {
            parse_dir(data, pos + 32, (count - 1) as nat, t)
        } else {
            parse_dir(
                data,
                pos + 32,
                (count - 1) as nat,
                table_insert(t, name, data.subrange(file_pos, file_pos + size)),
            )
        }
    }
}

/// `WAD3` as bytes.
pub open spec fn wad3_magic() -> Seq<u8> {
    seq![0x57u8, 0x41u8, 0x44u8, 0x33u8]
}

/// What parsing a WAD3 archive yields.
pub open spec fn spec_parse_wad(data: Seq<u8>) -> Result<TextureTable, BspError> {
    if data.len() < 4 {
        Err(short_read(data, 0, 4))
    } else if data.subrange(0, 4) != wad3_magic() {
        Err(BspError::NotWad3)
    } else if data.len() < 8 {
        Err(short_read(data, 4, 4))
    } else if data.len() < 12 {
        Err(short_read(data, 8, 4))
    } else {
        let num = ((le_u32_at(data, 4) as u32) as i32) as usize;
        let dir = le_u32_at(data, 8);
        parse_dir(data, dir, num as nat, Seq::empty())
    }
}

/// A loaded WAD3 archive: upper-cased texture name → raw miptex bytes.
#[derive(Default)]
pub struct Wad {
    textures: Vec<(String, Vec<u8>)>,
}

impl View for Wad {
    type V = TextureTable;

    closed spec fn view(&self) -> TextureTable {
        Seq::new(self.textures@.len(), |i: int| (self.textures@[i].0@, self.textures@[i].1@))
    }
}

impl Wad {
    /// Names are unique.
    pub open spec fn wf(&self) -> bool {
        table_keys_unique(self@)
    }

    /// An empty archive.
    pub fn new() -> (w: Self)
        ensures
            w.wf(),
            w@ == Seq::<(Seq<char>, Seq<u8>)>::empty(),
    {
        let w = Wad { textures: Vec::new() };
        assert(w@ =~= Seq::<(Seq<char>, Seq<u8>)>::empty());
        w
    }

    /// `true` if the archive holds no textures.
    pub fn is_empty(&self) -> (r: bool)
        ensures
            r == (self@.len() == 0),
    {
        self.textures.len() == 0
    }

    /// Number of textures.
    pub fn len(&self) -> (r: usize)
        ensures
            r == self@.len(),
    {
        self.textures.len()
    }

    /// The position of `key`, if present.
    fn index_of(&self, key: &str) -> (r: Option<usize>)
        ensures
            r is None <==> table_index(self@, key@) is None,
            r matches Some(k) ==> table_index(self@, key@) == Some(k as int),
    {
        let ghost t = self@;
        let mut i: usize = 0;
        while i < self.textures.len()
            invariant
                t == self@,
                t.len() == self.textures@.len(),
                i <= t.len(),
                table_index(t, key@) == table_index_from(t, key@, i as int),
            decreases t.len() - i,
        {
            if str_eq(self.textures[i].0.as_str(), key) {
                return Some(i);
            }
            i = i + 1;
        }
        None
    }

    /// Store `value` under `key`, replacing an earlier value.
    fn insert(&mut self, key: String, value: Vec<u8>)
        requires
            old(self).wf(),
        ensures
            final(self).wf(),
            final(self)@ == table_insert(old(self)@, key@, value@),
    {
        proof {
            lemma_table_index(self@, key@, 0);
        }
        match self.index_of(key.as_str()) {
            Some(i) => {
                let ghost kv = key@;
                self.textures.set(i, (key, value));
                assert(self@ =~= old(self)@.update(i as int, (kv, value@)));
            },
            None => {
                self.textures.push((key, value));
                assert(self@ =~= old(self)@.push((key@, value@)));
            },
        }
    }

    /// Parse a WAD3 archive and index its miptex lumps by upper-cased name.
    pub fn parse(data: &[u8]) -> (r: Result<Wad, BspError>)
        ensures
            match (r, spec_parse_wad(data@)) {
                (Ok(w), Ok(t)) => w.wf() && w@ == t,
                (Err(x), Err(y)) => x == y,
                _ => false,
            },
    {
        let len = data.len();
        let mut r = Reader::new(data);
        let magic = r.bytes(4)?;
        if !(magic[0] == 0x57 && magic[1] == 0x41 && magic[2] == 0x44 && magic[3] == 0x33) {
            proof {
                if data@.subrange(0, 4) == wad3_magic() {
                    assert(magic@[0] == data@.subrange(0, 4)[0]);
                }
            }
            return Err(BspError::NotWad3);
        }
        assert(data@.subrange(0, 4) =~= wad3_magic());
        let num_lumps = r.i32()? as usize;
        let dir_offset = r.u32()? as usize;
        let mut wad = Wad::new();
        let mut dir = Reader::at(data, dir_offset);
        let ghost full = spec_parse_wad(data@);
        let mut k: usize = 0;
        while k < num_lumps
            invariant
                len == data@.len(),
                dir.data() == data@,
                k <= num_lumps,
                wad.wf(),
                full == spec_parse_wad(data@),
                full == parse_dir(data@, dir.position() as int, (num_lumps - k) as nat, wad@),
            decreases num_lumps - k,
        {
            let ghost pos = dir.position() as int;
            let file_pos = dir.u32()? as usize;
            let _disk_size = dir.i32()?;
            let size = dir.i32()? as usize;
            let typ = dir.u8()?;
            let _compression = dir.u8()?;
            let _pad = dir.u16()?;
            let name = dir.fixed_str(16)?;
            assert(dir.position() == pos + 32);
            if typ != TYP_MIPTEX || size > len || file_pos > len - size {
                k = k + 1;
                continue;
            }
            let upper = str_to_ascii_uppercase(name.as_str());
            let bytes = vstd::slice::slice_to_vec(&data[file_pos..file_pos + size]);
            wad.insert(upper, bytes);
            k = k + 1;
        }
        Ok(wad)
    }

    /// Merge another WAD's entries into this one: names already present keep
    /// their bytes (matching the map's `wad` search order).
    pub fn merge(&mut self, other: Wad)
        requires
            old(self).wf(),
        ensures
            final(self).wf(),
            final(self)@ == table_merge(old(self)@, other@),
    {
        let ghost o = other@;
        let Wad { textures } = other;
        let mut k: usize = 0;
        assert(o.take(0) =~= Seq::<(Seq<char>, Seq<u8>)>::empty());
        let mut rest = textures;
        let _n = rest.len();
        assert(o.len() == rest@.len());
        while rest.len() > 0
            invariant
                self.wf(),
                k <= o.len(),
                o.len() <= usize::MAX,
                rest@.len() == o.len() - k,
                forall|j: int|
                    0 <= j < rest@.len() ==> (#[trigger] rest@[j]).0@ == o[k + j].0 && rest@[j].1@
                        == o[k + j].1,
                self@ == table_merge(old(self)@, o.take(k as int)),
            decreases rest@.len(),
        {
            let (key, value) = rest.remove(0);
            proof {
                assert(o.take(k + 1).drop_last() =~= o.take(k as int));
                assert(o.take(k + 1).last() == o[k as int]);
                lemma_table_index(self@, key@, 0);
            }
            if self.index_of(key.as_str()).is_none() {
                self.textures.push((key, value));
                assert(self@ =~= table_merge(old(self)@, o.take(k as int)).push((o[k as int].0, o[k as int].1)));
            }
            k = k + 1;
        }
        assert(o.take(o.len() as int) =~= o);
    }

    /// Look up raw miptex bytes by (case-insensitive) name.
    pub fn get(&self, name: &str) -> (r: Option<&[u8]>)
        ensures
            match (r, table_get(self@, ascii_upper(name@))) {
                (Some(x), Some(y)) => x@ == y,
                (None, None) => true,
                _ => false,
            },
    {
        let upper = str_to_ascii_uppercase(name);
        proof {
            lemma_table_index(self@, upper@, 0);
        }
        match self.index_of(upper.as_str()) {
            Some(i) => Some(self.textures[i].1.as_slice()),
            None => None,
        }
    }

    /// Decode a named texture from this WAD to RGBA, if present and valid.
    pub fn decode(&self, name: &str) -> (r: Option<TextureData>)
        ensures
            match table_get(self@, ascii_upper(name@)) {
                None => r is None,
                Some(b) => match (r, spec_decode_miptex(b, is_color_keyed(name@))) {
                    (Some(t), Ok((w, h, rgba))) => t.width == w && t.height == h && t.rgba@ == rgba,
                    (None, Err(_)) => true,
                    _ => false,
                },
            },
    {
        let bytes = self.get(name)?;
        match decode_miptex(bytes, name) {
            Ok(t) => Some(t),
            Err(_) => None,
        }
    }
}

/// A found index is in range and holds the key; no earlier one does.
pub proof fn lemma_table_index(t: TextureTable, key: Seq<char>, from: int)
    requires
        0 <= from,
    ensures
        table_index_from(t, key, from) matches Some(i) ==> from <= i < t.len() && t[i].0 == key
            && forall|j: int| from <= j < i ==> t[j].0 != key,
        table_index_from(t, key, from) is None ==> forall|j: int| from <= j < t.len() ==> t[j].0 != key,
    decreases t.len() - from,
{
    if from < t.len() && t[from].0 != key {
        lemma_table_index(t, key, from + 1);
    }
}

proof fn lemma_first_index(t: TextureTable, key: Seq<char>, from: int, i: int)
    requires
        0 <= from <= i < t.len(),
        t[i].0 == key,
        forall|j: int| from <= j < i ==> t[j].0 != key,
    ensures
        table_index_from(t, key, from) == Some(i),
    decreases i - from,
{
    if from < i {
        lemma_first_index(t, key, from + 1, i);
    }
}

proof fn lemma_get_push(t: TextureTable, x: (Seq<char>, Seq<u8>), key: Seq<char>)
    ensures
        table_get(t.push(x), key) == if table_get(t, key) is Some {
            table_get(t, key)
        } else if x.0 == key {
            Some(x.1)
        } else {
            None
        },
{
    lemma_table_index(t, key, 0);
    lemma_table_index(t.push(x), key, 0);
    if let Some(i) = table_index(t, key) {
        lemma_first_index(t.push(x), key, 0, i);
    } else if x.0 == key {
        lemma_first_index(t.push(x), key, 0, t.len() as int);
    }
}

/// Each decoded texel takes its colour from the palette that follows the
/// smallest mip level. Mip level 3 holds `max(w/8, 1) × max(h/8, 1)` bytes;
/// the 16-bit palette count follows it and the palette follows the count.
/// Texel `j`, whose palette index is byte `mip0 + j`, gets the three bytes
/// at three times that index, fully opaque, whenever the index is within
/// the stored count and is not the colour key.
pub proof fn lemma_texels_from_palette(b: Seq<u8>, keyed: bool, j: int)
    ensures
        spec_decode_miptex(b, keyed) matches Ok((w, h, rgba)) ==> ({
            let small_w: int = if w >= 16 { w as int / 8 } else { 1 };
            let small_h: int = if h >= 16 { h as int / 8 } else { 1 };
            let pal = le_u32_at(b, 36) + small_w * small_h + 2;
            let idx = b[le_u32_at(b, 24) + j];
            0 <= j < w * h && !(keyed && idx == 255) && (idx as int) < le_u16_at(b, pal - 2) ==> {
                &&& rgba[4 * j] == b[pal + 3 * idx]
                &&& rgba[4 * j + 1] == b[pal + 3 * idx + 1]
                &&& rgba[4 * j + 2] == b[pal + 3 * idx + 2]
                &&& rgba[4 * j + 3] == 255
            }
        }),
{
    if let Ok((w, h, rgba)) = spec_decode_miptex(b, keyed) {
        let wi = le_u32_at(b, 16);
        let hi = le_u32_at(b, 20);
        let small_w: int = if wi >= 16 { wi / 8 } else { 1 };
        let small_h: int = if hi >= 16 { hi / 8 } else { 1 };
        assert(small_w == (if wi / 8 > 1 { wi / 8 } else { 1 }));
        assert(small_h == (if hi / 8 > 1 { hi / 8 } else { 1 }));
        assert((4 * j) / 4 == j && (4 * j + 1) / 4 == j && (4 * j + 2) / 4 == j && (4 * j + 3) / 4
            == j);
        assert((4 * j) % 4 == 0 && (4 * j + 1) % 4 == 1 && (4 * j + 2) % 4 == 2 && (4 * j + 3) % 4
            == 3);
    }
}

/// Lookup ignores ASCII case: a name, its upper-cased form and its
/// lower-cased form all find the same entry.
pub proof fn lemma_lookup_ignores_case(t: TextureTable, name: Seq<char>)
    ensures
        table_get(t, ascii_upper(ascii_upper(name))) == table_get(t, ascii_upper(name)),
        table_get(t, ascii_upper(ascii_lower(name))) == table_get(t, ascii_upper(name)),
{
    lemma_ascii_upper_absorbs(name);
}

/// Merging never overwrites: a name keeps the bytes the first archive had
/// for it, and a name only the second archive has gets that archive's bytes.
pub proof fn lemma_merge_keeps_earlier(a: TextureTable, b: TextureTable, key: Seq<char>)
    ensures
        table_get(table_merge(a, b), key) == if table_get(a, key) is Some {
            table_get(a, key)
        } else {
            table_get(b, key)
        },
    decreases b.len(),
{
    if b.len() > 0 {
        let m = table_merge(a, b.drop_last());
        lemma_merge_keeps_earlier(a, b.drop_last(), key);
        lemma_get_push(b.drop_last(), b.last(), key);
        assert(b.drop_last().push(b.last()) =~= b);
        lemma_table_index(m, b.last().0, 0);
        if table_index(m, b.last().0) is None {
            lemma_get_push(m, (b.last().0, b.last().1), key);
        }
    }
}

} // verus!
