use pocket3d::bsp::entity::{extract_triggers, parse_entities};
use pocket3d::bsp::format::{lump_index, lump_name, Header, LumpId, RawBsp};
use pocket3d::bsp::info::lump_summaries;
use pocket3d::bsp::reader::Reader;
use pocket3d::bsp::wad::{decode_miptex, MipTexHeader, Wad};
use pocket3d::bsp::wadlist::{referenced_wads, wad_names_in};
use pocket3d::bsp::BspError;

fn push_u32(out: &mut Vec<u8>, v: u32) {
    out.extend_from_slice(&v.to_le_bytes());
}

/// A version-30 BSP whose lumps are laid out back to back after the header.
fn build_bsp(version: i32, lumps: &[Vec<u8>; 15]) -> Vec<u8> {
    let mut out = Vec::new();
    out.extend_from_slice(&version.to_le_bytes());
    let mut offset = 124u32;
    for l in lumps.iter() {
        push_u32(&mut out, offset);
        push_u32(&mut out, l.len() as u32);
        offset += l.len() as u32;
    }
    for l in lumps.iter() {
        out.extend_from_slice(l);
    }
    out
}

fn empty_lumps() -> [Vec<u8>; 15] {
    Default::default()
}

/// A miptex named `name` of `w`x`h` with embedded indices and palette.
fn build_miptex(name: &str, w: u32, h: u32, indices: &[u8], palette: &[[u8; 3]]) -> Vec<u8> {
    let mut out = Vec::new();
    let mut n = [0u8; 16];
    n[..name.len()].copy_from_slice(name.as_bytes());
    out.extend_from_slice(&n);
    push_u32(&mut out, w);
    push_u32(&mut out, h);
    let mip0 = 40u32;
    let mip3 = mip0 + indices.len() as u32;
    push_u32(&mut out, mip0);
    push_u32(&mut out, mip0);
    push_u32(&mut out, mip0);
    push_u32(&mut out, mip3);
    out.extend_from_slice(indices);
    let mip3_len = std::cmp::max(w / 8, 1) * std::cmp::max(h / 8, 1);
    out.extend(std::iter::repeat(0u8).take(mip3_len as usize));
    out.extend_from_slice(&(palette.len() as u16).to_le_bytes());
    for c in palette {
        out.extend_from_slice(c);
    }
    out
}

/// A WAD3 archive with the given `(type, name, bytes)` lumps.
fn build_wad(entries: &[(u8, &str, Vec<u8>)]) -> Vec<u8> {
    let mut out = b"WAD3".to_vec();
    out.extend_from_slice(&(entries.len() as i32).to_le_bytes());
    let data_len: usize = entries.iter().map(|e| e.2.len()).sum();
    push_u32(&mut out, (12 + data_len) as u32);
    let mut positions = Vec::new();
    for e in entries {
        positions.push(out.len() as u32);
        out.extend_from_slice(&e.2);
    }
    for (e, pos) in entries.iter().zip(positions) {
        push_u32(&mut out, pos);
        out.extend_from_slice(&(e.2.len() as i32).to_le_bytes());
        out.extend_from_slice(&(e.2.len() as i32).to_le_bytes());
        out.push(e.0);
        out.push(0);
        out.extend_from_slice(&0u16.to_le_bytes());
        let mut n = [0u8; 16];
        n[..e.1.len()].copy_from_slice(e.1.as_bytes());
        out.extend_from_slice(&n);
    }
    out
}

#[test]
fn reader_reads_little_endian_and_reports_short_reads() {
    let data = [0x01u8, 0x00, 0x02, 0x00, 0x00, 0x00, 0xFF];
    let mut r = Reader::new(&data);
    assert_eq!(r.u16(), Ok(1));
    assert_eq!(r.u32(), Ok(2));
    assert_eq!(r.pos(), 6);
    assert_eq!(r.remaining(), 1);
    assert_eq!(r.u32(), Err(BspError::UnexpectedEnd { need: 4, at: 6, have: 7 }));
    assert_eq!(r.pos(), 6, "a failed read does not move the cursor");
    assert_eq!(r.i8(), Ok(-1));
    assert_eq!(r.u8(), Err(BspError::UnexpectedEnd { need: 1, at: 7, have: 7 }));

    let mut s = Reader::at(&data, 2);
    assert_eq!(s.i16(), Ok(2));
    s.seek(0);
    assert_eq!(s.i32(), Ok(0x0002_0001));
    assert_eq!(s.bytes(2), Ok(&data[4..6]));
}

#[test]
fn reader_fixed_str_stops_at_the_first_nul() {
    let data = b"wall\0junk\0\0\0\0\0\0\0rest";
    let mut r = Reader::new(data);
    assert_eq!(r.fixed_str(16).unwrap(), "wall");
    assert_eq!(r.pos(), 16);
    let unpadded = b"abcd";
    assert_eq!(Reader::new(unpadded).fixed_str(4).unwrap(), "abcd");
    assert!(Reader::new(unpadded).fixed_str(5).is_err());
}

#[test]
fn header_parses_version_and_directory() {
    let mut lumps = empty_lumps();
    lumps[7] = vec![0u8; 40];
    lumps[14] = vec![7u8; 130];
    let bytes = build_bsp(30, &lumps);
    let h = Header::parse(&bytes).unwrap();
    assert_eq!(h.version, 30);
    assert_eq!(h.lump(LumpId::Faces).offset, 124);
    assert_eq!(h.lump(LumpId::Faces).length, 40);
    assert_eq!(h.lump(LumpId::Models).offset, 164);
    assert_eq!(h.lump_bytes(&bytes, LumpId::Models).unwrap(), &bytes[164..294]);

    let cut = &bytes[..200];
    assert_eq!(
        h.lump_bytes(cut, LumpId::Models),
        Err(BspError::LumpOutOfRange { lump: 14, start: 164, end: 294, len: 200 })
    );
    assert_eq!(
        Header::parse(&bytes[..10]).unwrap_err(),
        BspError::UnexpectedEnd { need: 4, at: 8, have: 10 }
    );
}

#[test]
fn lump_names_and_slots() {
    assert_eq!(lump_index(LumpId::Entities), 0);
    assert_eq!(lump_index(LumpId::Faces), 7);
    assert_eq!(lump_index(LumpId::Models), 14);
    assert_eq!(lump_name(LumpId::MarkSurfaces), "MARKSURFACES");
    assert_eq!(lump_name(LumpId::TexInfo), "TEXINFO");
}

#[test]
fn lump_summaries_count_whole_records() {
    let mut lumps = empty_lumps();
    lumps[0] = b"{}\0".to_vec();
    lumps[7] = vec![0u8; 40];
    lumps[14] = vec![0u8; 130];
    let bytes = build_bsp(30, &lumps);
    let h = Header::parse(&bytes).unwrap();
    let s = lump_summaries(&h);
    assert_eq!(s.len(), 15);
    assert_eq!(s[0].name, "ENTITIES");
    assert_eq!(s[0].count, 3);
    assert_eq!(s[7].name, "FACES");
    assert_eq!((s[7].offset, s[7].length, s[7].count), (127, 40, 2));
    assert_eq!(s[14].name, "MODELS");
    assert_eq!(s[14].count, 2, "a partial record is not counted");
    assert_eq!(s[3].count, 0);
}

#[test]
fn raw_bsp_decodes_lumps_and_rejects_bad_files() {
    let mut lumps = empty_lumps();
    lumps[0] = b"{ \"classname\" \"worldspawn\" }\0garbage".to_vec();
    let mut verts = Vec::new();
    for v in [1.0f32, 2.0, 3.0, -4.0, 0.5, 8.0] {
        verts.extend_from_slice(&v.to_bits().to_le_bytes());
    }
    lumps[3] = verts;
    lumps[12] = vec![1, 0, 2, 0, 3, 0, 4, 0];
    lumps[13] = (-5i32).to_le_bytes().to_vec();
    lumps[8] = vec![9, 8, 7];
    let bytes = build_bsp(30, &lumps);
    let raw = RawBsp::parse(&bytes).unwrap();
    assert_eq!(raw.entities_text, "{ \"classname\" \"worldspawn\" }");
    assert_eq!(raw.vertices.len(), 2);
    assert_eq!(f32::from_bits(raw.vertices[1].x), -4.0);
    assert_eq!(f32::from_bits(raw.vertices[1].z), 8.0);
    assert_eq!(raw.edges.len(), 2);
    assert_eq!(raw.edges[1].v, [3, 4]);
    assert_eq!(raw.surf_edges, vec![-5]);
    assert_eq!(raw.lighting, vec![9, 8, 7]);
    assert!(raw.faces.is_empty());

    let old = build_bsp(29, &empty_lumps());
    assert_eq!(RawBsp::parse(&old).err(), Some(BspError::UnsupportedVersion(29)));
    let short = &bytes[..bytes.len() - 1];
    assert!(matches!(
        RawBsp::parse(short).err(),
        Some(BspError::LumpOutOfRange { lump: 13, .. })
    ));
}

#[test]
fn entities_keep_every_pair_and_find_triggers() {
    let text = "{\n\"classname\" \"worldspawn\"\n\"wad\" \"\\half-life\\valve\\halflife.wad;gfx/decals.wad\"\n}\n\
                { \"classname\" \"func_buyzone\" \"model\" \"*3\" \"targetname\" \"buy_ct\" \"model\" \"*4\" }\n\
                { \"classname\" \"trigger_multiple\" \"model\" \"7\" }\n\
                { \"classname\" \"info_player_start\" \"origin\" \"1 2 3\" }\n\
                { }";
    let ents = parse_entities(text);
    assert_eq!(ents.len(), 4, "the empty block is dropped");
    assert_eq!(ents[0].class_name, "worldspawn");
    assert_eq!(ents[0].get("wad"), Some("\\half-life\\valve\\halflife.wad;gfx/decals.wad"));
    assert_eq!(ents[1].get("model"), Some("*4"), "a repeated key keeps its last value");
    assert_eq!(ents[1].props.len(), 2);
    assert_eq!(ents[1].brush_model_index(), Some(4));
    assert_eq!(ents[2].brush_model_index(), None, "not a `*N` reference");
    assert_eq!(ents[3].get("missing"), None);

    let triggers = extract_triggers(&ents);
    assert_eq!(triggers.len(), 2);
    assert_eq!(triggers[0].class_name, "func_buyzone");
    assert_eq!(triggers[0].target_name.as_deref(), Some("buy_ct"));
    assert_eq!(triggers[0].model_index, Some(4));
    assert_eq!(triggers[1].class_name, "trigger_multiple");
    assert_eq!(triggers[1].target_name, None);
    assert_eq!(triggers[1].model_index, None);
}

#[test]
fn entity_keys_come_out_sorted_and_unique() {
    let text = "{ \"zeta\" \"1\" \"alpha\" \"2\" \"Mid\" \"3\" \"alpha\" \"4\" \"al\" \"5\" \"classname\" \"x\" }";
    let ents = parse_entities(text);
    assert_eq!(ents.len(), 1);
    let keys: Vec<&str> = ents[0].props.iter().map(|(k, _)| k.as_str()).collect();
    assert_eq!(keys, vec!["Mid", "al", "alpha", "zeta"]);
    assert_eq!(ents[0].get("alpha"), Some("4"));
    assert_eq!(ents[0].class_name, "x");
}

#[test]
fn brush_model_index_parses_like_u32() {
    let ents = parse_entities(
        "{ \"classname\" \"a\" \"model\" \"*+12\" }{ \"classname\" \"b\" \"model\" \"*4294967296\" }\
         { \"classname\" \"c\" \"model\" \"*\" }{ \"classname\" \"d\" \"model\" \"*0\" }",
    );
    assert_eq!(ents[0].brush_model_index(), Some(12));
    assert_eq!(ents[1].brush_model_index(), None);
    assert_eq!(ents[2].brush_model_index(), None);
    assert_eq!(ents[3].brush_model_index(), Some(0));
}

#[test]
fn wad_list_keeps_last_path_components() {
    assert_eq!(
        wad_names_in("\\half-life\\valve\\halflife.wad;gfx/decals.wad;;  ;cs.wad; x.wad"),
        vec!["halflife.wad", "decals.wad", "cs.wad", " x.wad"]
    );
    assert!(wad_names_in("").is_empty());
    assert_eq!(wad_names_in("dir/"), vec![""]);

    let mut lumps = empty_lumps();
    lumps[0] = b"{ \"classname\" \"light\" \"wad\" \"no.wad\" }\n{ \"classname\" \"worldspawn\" \"wad\" \"a\\\\b.wad;c/d.wad\" }\0".to_vec();
    let raw = RawBsp::parse(&build_bsp(30, &lumps)).unwrap();
    assert_eq!(referenced_wads(&raw), vec!["b.wad", "d.wad"]);

    let mut no_world = empty_lumps();
    no_world[0] = b"{ \"classname\" \"light\" \"wad\" \"no.wad\" }\0".to_vec();
    let raw = RawBsp::parse(&build_bsp(30, &no_world)).unwrap();
    assert!(referenced_wads(&raw).is_empty());
}

#[test]
fn miptex_decodes_palette_key_and_fallback() {
    let pal = [[10u8, 20, 30], [40, 50, 60]];
    let tex = build_miptex("{fence", 2, 2, &[0, 1, 255, 7], &pal);
    let hdr = MipTexHeader::parse(&tex).unwrap();
    assert_eq!(hdr.name, "{fence");
    assert_eq!((hdr.width, hdr.height), (2, 2));
    assert!(hdr.has_embedded_pixels());

    let keyed = decode_miptex(&tex, "{fence").unwrap();
    assert_eq!((keyed.width, keyed.height), (2, 2));
    assert_eq!(
        keyed.rgba,
        vec![10, 20, 30, 255, 40, 50, 60, 255, 0, 0, 0, 0, 255, 0, 255, 255]
    );
    let plain = decode_miptex(&tex, "fence").unwrap();
    assert_eq!(&plain.rgba[8..12], &[255, 0, 255, 255], "255 is only transparent when keyed");
}

#[test]
fn miptex_rejections() {
    let pal = [[1u8, 2, 3]];
    let ok = build_miptex("t", 2, 2, &[0, 0, 0, 0], &pal);
    assert_eq!(
        decode_miptex(&ok[..20], "t").err(),
        Some(BspError::UnexpectedEnd { need: 4, at: 20, have: 20 })
    );
    let zero = build_miptex("t", 0, 2, &[], &pal);
    assert_eq!(
        decode_miptex(&zero, "t").err(),
        Some(BspError::InvalidDimensions { width: 0, height: 2 })
    );
    let mut external = ok.clone();
    external[24..28].copy_from_slice(&0u32.to_le_bytes());
    assert!(!MipTexHeader::parse(&external).unwrap().has_embedded_pixels());
    assert_eq!(decode_miptex(&external, "t").err(), Some(BspError::NoEmbeddedPixels));
    assert_eq!(decode_miptex(&ok[..43], "t").err(), Some(BspError::Mip0OutOfRange));
    assert_eq!(decode_miptex(&ok[..45], "t").err(), Some(BspError::PaletteHeaderOutOfRange));
    assert_eq!(decode_miptex(&ok[..49], "t").err(), Some(BspError::PaletteOutOfRange));
    assert!(decode_miptex(&ok, "t").is_ok());
}

#[test]
fn wad_indexes_miptex_lumps_case_insensitively() {
    let pal = [[1u8, 2, 3]];
    let wall = build_miptex("wall", 2, 2, &[0, 0, 0, 0], &pal);
    let bytes = build_wad(&[
        (0x43, "Wall", wall.clone()),
        (0x42, "palette", vec![1, 2, 3]),
        (0x43, "Sky", vec![9, 9]),
    ]);
    let wad = Wad::parse(&bytes).unwrap();
    assert_eq!(wad.len(), 2, "only miptex lumps are indexed");
    assert!(!wad.is_empty());
    assert_eq!(wad.get("WALL"), Some(&wall[..]));
    assert_eq!(wad.get("wall"), Some(&wall[..]));
    assert_eq!(wad.get("WaLl"), wad.get("wall"));
    assert_eq!(wad.get("palette"), None);
    assert_eq!(wad.decode("wAlL").unwrap().rgba, vec![1, 2, 3, 255].repeat(4));
    assert!(wad.decode("sky").is_none(), "a broken miptex does not decode");

    assert_eq!(Wad::parse(b"WAD2\0\0\0\0\0\0\0\0").err(), Some(BspError::NotWad3));
    assert!(Wad::new().is_empty());
}

#[test]
fn wad_merge_keeps_earlier_entries() {
    let first = Wad::parse(&build_wad(&[(0x43, "a", vec![1]), (0x43, "b", vec![2])])).unwrap();
    let second = Wad::parse(&build_wad(&[(0x43, "b", vec![3]), (0x43, "c", vec![4])])).unwrap();
    let mut merged = first;
    merged.merge(second);
    assert_eq!(merged.len(), 3);
    assert_eq!(merged.get("a"), Some(&[1u8][..]));
    assert_eq!(merged.get("b"), Some(&[2u8][..]));
    assert_eq!(merged.get("c"), Some(&[4u8][..]));
}

use pocket3d::bsp::compile::{classify, is_tool_texture, resolve_textures, ShelfPacker};
use pocket3d::material::MaterialKind;

#[test]
fn texture_names_classify_surfaces() {
    assert_eq!(classify("SKY_up"), MaterialKind::BspSky);
    assert_eq!(classify("{fence"), MaterialKind::BspAlphaTest);
    assert_eq!(classify("!toxic"), MaterialKind::BspWater);
    assert_eq!(classify("c1a0_WATER2"), MaterialKind::BspWater);
    assert_eq!(classify("liquidmetal"), MaterialKind::BspWater);
    assert_eq!(classify("crete1"), MaterialKind::BspWorldLit);
    assert_eq!(classify("skyline"), MaterialKind::BspSky, "any sky prefix");
    assert_eq!(classify("{water"), MaterialKind::BspAlphaTest, "the brace wins over water");
    assert_eq!(classify(""), MaterialKind::BspWorldLit);
}

#[test]
fn tool_textures_are_recognised_in_any_case() {
    assert!(is_tool_texture("AAATRIGGER"));
    assert!(is_tool_texture("clip"));
    assert!(is_tool_texture("NoDraw"));
    assert!(!is_tool_texture("clip2"));
    assert!(!is_tool_texture("sky"));
}

/// A textures lump: the count, the offsets, then the miptex blobs.
fn build_textures_lump(count: i32, blobs: &[Vec<u8>], extra_offsets: &[i32]) -> Vec<u8> {
    let mut out = count.to_le_bytes().to_vec();
    let n = blobs.len() + extra_offsets.len();
    let mut pos = 4 + 4 * n as i32;
    let mut offsets = Vec::new();
    for b in blobs {
        offsets.push(pos);
        pos += b.len() as i32;
    }
    offsets.extend_from_slice(extra_offsets);
    for o in offsets {
        out.extend_from_slice(&o.to_le_bytes());
    }
    for b in blobs {
        out.extend_from_slice(b);
    }
    out
}

#[test]
fn textures_resolve_from_embedded_data_wads_or_the_checker() {
    let pal = [[5u8, 6, 7]];
    let embedded = build_miptex("{grate", 2, 2, &[0, 0, 0, 255], &pal);
    let mut external = build_miptex("SKYWALL", 2, 2, &[0, 0, 0, 0], &pal);
    external[24..40].copy_from_slice(&[0u8; 16]);
    let mut absent = build_miptex("ghost", 2, 2, &[0, 0, 0, 0], &pal);
    absent[24..28].copy_from_slice(&[0u8; 4]);
    let lump = build_textures_lump(5, &[embedded, external, absent], &[-1, 100_000]);

    let wad_tex = build_miptex("skywall", 2, 2, &[0, 0, 0, 0], &[[9, 9, 9]]);
    let wad = Wad::parse(&build_wad(&[(0x43, "skywall", wad_tex)])).unwrap();

    let mut lumps = empty_lumps();
    lumps[2] = lump;
    let raw = RawBsp::parse(&build_bsp(30, &lumps)).unwrap();
    let r = resolve_textures(&raw, &wad);
    assert_eq!(r.len(), 5);

    assert_eq!(r[0].name, "{grate");
    assert_eq!(r[0].kind, MaterialKind::BspAlphaTest);
    assert!(r[0].found);
    assert_eq!(&r[0].texture.rgba[12..16], &[0, 0, 0, 0]);

    assert_eq!(r[1].name, "SKYWALL");
    assert_eq!(r[1].kind, MaterialKind::BspSky);
    assert!(r[1].found, "found in the WAD");
    assert_eq!(&r[1].texture.rgba[0..4], &[9, 9, 9, 255]);

    assert_eq!(r[2].name, "ghost");
    assert!(!r[2].found);
    assert_eq!(r[2].texture.rgba, pocket3d::texture::TextureData::missing().rgba);

    assert_eq!(r[3].name, "<invalid>");
    assert_eq!(r[4].name, "<invalid>");
    assert_eq!(r[3].kind, MaterialKind::BspWorldLit);

    for t in &r {
        let (w, h) = (t.texture.width as usize, t.texture.height as usize);
        assert_eq!(t.texture.rgba.len(), w * h * 4, "{} is well formed", t.name);
    }
}

#[test]
fn texture_lump_counts_are_bounded() {
    let mut lumps = empty_lumps();
    lumps[2] = build_textures_lump(1000, &[], &[4]);
    let raw = RawBsp::parse(&build_bsp(30, &lumps)).unwrap();
    let r = resolve_textures(&raw, &Wad::new());
    assert_eq!(r.len(), 1, "only as many offsets as the lump holds");
    assert_eq!(r[0].name, "<bad>");

    let mut neg = empty_lumps();
    neg[2] = (-3i32).to_le_bytes().to_vec();
    let raw = RawBsp::parse(&build_bsp(30, &neg)).unwrap();
    assert!(resolve_textures(&raw, &Wad::new()).is_empty());
}

#[test]
fn shelf_packer_wraps_rows() {
    let mut p = ShelfPacker::new(10);
    assert_eq!(p.height(), 1);
    assert_eq!(p.place(4, 2), (0, 0));
    assert_eq!(p.place(4, 5), (5, 0));
    assert_eq!(p.place(4, 1), (0, 6), "a full row starts a shelf below the tallest block");
    assert_eq!(p.place(3, 1), (5, 6));
    assert_eq!(p.height(), 8);
}

use pocket3d::bsp::compile::{
    blit_lightmap, blit_white, bucket_faces, collision_triangles, face_polygon, push_fan_indices,
    LmBlock,
};
use pocket3d::bsp::format::RawVec3;
use pocket3d::texture::TextureData;

#[test]
fn white_blit_is_clipped_to_the_atlas() {
    let mut atlas = TextureData::new(3, 2);
    blit_white(&mut atlas, 2, 1, 4, 4);
    let mut expect = vec![0u8; 24];
    expect[20..24].copy_from_slice(&[255, 255, 255, 255]);
    assert_eq!(atlas.rgba, expect);
    blit_white(&mut atlas, 0, 0, 0, 5);
    assert_eq!(atlas.rgba, expect, "an empty rectangle paints nothing");
}

#[test]
fn lightmap_blit_copies_luxels_and_skips_missing_data() {
    let mut atlas = TextureData::new(4, 2);
    let lighting: Vec<u8> = (10..30).collect();
    let block = LmBlock { x: 1, y: 0, w: 2, h: 2, bmin_s: 0, bmin_t: 0, lit: true };
    // Luxels start at byte 9: rows (9..12, 12..15) and (15..18, 18..21); the
    // last one runs past the 20 bytes there are.
    blit_lightmap(&mut atlas, &lighting, 9, &block);
    let px = |x: usize, y: usize| atlas.rgba[(y * 4 + x) * 4..(y * 4 + x) * 4 + 4].to_vec();
    assert_eq!(px(1, 0), vec![19, 20, 21, 255]);
    assert_eq!(px(2, 0), vec![22, 23, 24, 255]);
    assert_eq!(px(1, 1), vec![25, 26, 27, 255]);
    assert_eq!(px(2, 1), vec![0, 0, 0, 0]);
    assert_eq!(px(0, 0), vec![0, 0, 0, 0]);
    assert_eq!(px(3, 1), vec![0, 0, 0, 0]);
}

fn v(x: u32) -> RawVec3 {
    RawVec3 { x, y: 0, z: 0 }
}

/// A BSP with four vertices, a quad face and a triangle face, one texinfo,
/// and models covering them.
fn polygon_bsp(second_face_texinfo: u16) -> RawBsp {
    let mut lumps = empty_lumps();
    let mut verts = Vec::new();
    for x in 0..4u32 {
        for c in [x, 0, 0] {
            verts.extend_from_slice(&c.to_le_bytes());
        }
    }
    lumps[3] = verts;
    // Edges 0..4: (0,1) (1,2) (2,3) (3,0).
    let mut edges = Vec::new();
    for (a, b) in [(0u16, 1u16), (1, 2), (2, 3), (3, 0)] {
        edges.extend_from_slice(&a.to_le_bytes());
        edges.extend_from_slice(&b.to_le_bytes());
    }
    lumps[12] = edges;
    // Quad walks 0,1,2,3 forward; the triangle walks edge 2 backward (-2 -> v[1] = 3), then 3, 0.
    let mut surf = Vec::new();
    for se in [0i32, 1, 2, 3, -2, 3, 0] {
        surf.extend_from_slice(&se.to_le_bytes());
    }
    lumps[13] = surf;
    lumps[6] = vec![0u8; 40];
    let mut faces = Vec::new();
    for (first, n, ti) in [(0u32, 4u16, 0u16), (4, 3, second_face_texinfo)] {
        faces.extend_from_slice(&0u16.to_le_bytes());
        faces.extend_from_slice(&0i16.to_le_bytes());
        faces.extend_from_slice(&first.to_le_bytes());
        faces.extend_from_slice(&n.to_le_bytes());
        faces.extend_from_slice(&ti.to_le_bytes());
        faces.extend_from_slice(&[0u8; 4]);
        faces.extend_from_slice(&(-1i32).to_le_bytes());
    }
    lumps[7] = faces;
    let mut models = Vec::new();
    for (first, n) in [(0u32, 2u32), (1, 1)] {
        models.extend_from_slice(&[0u8; 36]);
        models.extend_from_slice(&[0u8; 20]);
        models.extend_from_slice(&first.to_le_bytes());
        models.extend_from_slice(&n.to_le_bytes());
    }
    lumps[14] = models;
    RawBsp::parse(&build_bsp(30, &lumps)).unwrap()
}

#[test]
fn faces_walk_their_surf_edges() {
    let raw = polygon_bsp(0);
    assert_eq!(face_polygon(&raw, 0), Some(vec![v(0), v(1), v(2), v(3)]));
    assert_eq!(face_polygon(&raw, 1), Some(vec![v(3), v(3), v(0)]));
    let broken = polygon_bsp(5);
    assert_eq!(face_polygon(&broken, 1), None, "a missing texinfo drops the face");
}

#[test]
fn collision_fans_every_face_of_the_model() {
    let raw = polygon_bsp(0);
    let world = collision_triangles(&raw, 0);
    assert_eq!(
        world,
        vec![(v(0), v(1), v(2)), (v(0), v(2), v(3)), (v(3), v(3), v(0))]
    );
    assert_eq!(collision_triangles(&raw, 1), vec![(v(3), v(3), v(0))]);
    assert!(collision_triangles(&raw, 7).is_empty());
    assert_eq!(collision_triangles(&polygon_bsp(9), 0).len(), 2);
}

use pocket3d::bsp::entity::{spawn_team, Team};

#[test]
fn spawn_classes_pick_teams() {
    assert_eq!(spawn_team("info_player_start"), Some(Team::Ct));
    assert_eq!(spawn_team("info_player_deathmatch"), Some(Team::T));
    assert_eq!(spawn_team("info_player_Start"), None);
    assert_eq!(spawn_team("light"), None);
}

#[test]
fn shelf_packer_blocks_never_overlap() {
    let sizes = [(4u32, 2u32), (7, 5), (3, 1), (9, 9), (1, 1), (2, 6), (10, 0)];
    let mut p = ShelfPacker::new(12);
    let mut placed: Vec<(u32, u32, u32, u32)> = Vec::new();
    for (w, h) in sizes {
        assert!(p.fits(w, h));
        let (x, y) = p.place(w, h);
        for &(ox, oy, ow, oh) in &placed {
            let apart = x >= ox + ow || ox >= x + w || y >= oy + oh || oy >= y + h;
            assert!(apart, "({x},{y},{w},{h}) overlaps ({ox},{oy},{ow},{oh})");
        }
        placed.push((x, y, w, h));
    }
    assert!(p.height_fits());
    assert!(placed.iter().all(|&(_, y, _, h)| y + h < p.height()));
}

#[test]
fn shelf_packer_refuses_overflowing_blocks() {
    let p = ShelfPacker::new(8);
    assert!(!p.fits(u32::MAX, 1));
    assert!(!p.fits(1, u32::MAX));
    assert!(p.fits(u32::MAX - 1, 1));
}

#[test]
fn faces_batch_by_material_in_order() {
    let buckets = bucket_faces(&[2, 0, 9, 2, 1, 0], 3);
    assert_eq!(buckets, vec![vec![1, 5], vec![4], vec![0, 2, 3]]);
    assert_eq!(bucket_faces(&[4, 0], 0), vec![vec![0, 1]], "one bucket even with no textures");
    assert_eq!(bucket_faces(&[], 2), vec![Vec::<usize>::new(), Vec::new()]);
}

#[test]
fn fans_index_consecutive_corners() {
    let mut idx = vec![99];
    push_fan_indices(&mut idx, 10, 5);
    assert_eq!(idx, vec![99, 10, 11, 12, 10, 12, 13, 10, 13, 14]);
    let mut none = Vec::new();
    push_fan_indices(&mut none, 7, 2);
    push_fan_indices(&mut none, 7, 1);
    assert!(none.is_empty());
}

use pocket3d::bsp::compile::{face_has_lightmap, lightmap_extent, world_material, ResolvedTexture};
use pocket3d::bsp::entity::{pick_spawn_index, spawn_indices_for, Entity};
use pocket3d::bsp::info::{entity_class_counts, missing_texture_names};

fn resolved(name: &str, found: bool, kind: MaterialKind) -> ResolvedTexture {
    ResolvedTexture { name: name.to_string(), texture: TextureData::solid(0, 0, 0, 255), kind, found }
}

#[test]
fn missing_texture_names_keep_table_order() {
    let ts = vec![
        resolved("a", true, MaterialKind::BspWorldLit),
        resolved("b", false, MaterialKind::BspWorldLit),
        resolved("sky", true, MaterialKind::BspSky),
        resolved("c", false, MaterialKind::BspWater),
    ];
    assert_eq!(missing_texture_names(&ts), vec!["b".to_string(), "c".to_string()]);
    assert!(missing_texture_names(&[]).is_empty());
}

#[test]
fn entity_classes_are_tallied_once_each_in_sorted_order() {
    let ent = |c: &str| Entity { class_name: c.to_string(), props: Vec::new() };
    let es = vec![ent("light"), ent("worldspawn"), ent(""), ent("light"), ent("info_player_start"), ent("light"), ent("")];
    let counts = entity_class_counts(&es);
    assert_eq!(
        counts,
        vec![
            ("<none>".to_string(), 2),
            ("info_player_start".to_string(), 1),
            ("light".to_string(), 3),
            ("worldspawn".to_string(), 1),
        ]
    );
    let total: usize = counts.iter().map(|(_, n)| *n).sum();
    assert_eq!(total, es.len());
    assert!(entity_class_counts(&[]).is_empty());
}

#[test]
fn lightmap_extents_are_clamped_to_one_through_256() {
    assert_eq!(lightmap_extent(0, 0), 1);
    assert_eq!(lightmap_extent(-2, 3), 6);
    assert_eq!(lightmap_extent(5, 1), 1);
    assert_eq!(lightmap_extent(0, 255), 256);
    assert_eq!(lightmap_extent(0, 1000), 256);
}

#[test]
fn a_face_is_lit_only_when_its_luxels_fit_the_lighting_lump() {
    // 2x3 luxels of RGB need 18 bytes.
    assert!(face_has_lightmap(0, false, 2, 3, 18));
    assert!(face_has_lightmap(2, false, 2, 3, 20));
    assert!(!face_has_lightmap(3, false, 2, 3, 20));
    assert!(!face_has_lightmap(-1, false, 2, 3, 1000));
    assert!(!face_has_lightmap(0, true, 2, 3, 1000));
}

#[test]
fn world_materials_follow_their_texture() {
    let ts = vec![resolved("!water", true, MaterialKind::BspWater)];
    let m = world_material(&ts, 0);
    assert_eq!(m.name, "!water");
    assert_eq!(m.kind, MaterialKind::BspWater);
    assert_eq!(m.base_texture, Some(0));
    assert_eq!(m.lightmap_atlas, Some(0));
    let past = world_material(&ts, 1);
    assert_eq!(past.name, "");
    assert_eq!(past.kind, MaterialKind::BspWorldLit);
    assert_eq!(past.base_texture, Some(1));
}

#[test]
fn spawns_are_picked_by_team_then_any_then_none() {
    let teams = [Team::T, Team::Ct, Team::T, Team::Ct];
    assert_eq!(spawn_indices_for(&teams, Team::Ct), vec![1, 3]);
    assert_eq!(spawn_indices_for(&teams, Team::Other), Vec::<usize>::new());
    assert_eq!(pick_spawn_index(&teams, Team::Ct), Some(1));
    assert_eq!(pick_spawn_index(&teams, Team::T), Some(0));
    assert_eq!(pick_spawn_index(&[Team::T], Team::Ct), Some(0));
    assert_eq!(pick_spawn_index(&[], Team::Ct), None);
}
