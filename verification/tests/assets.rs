use pocket3d::crc::crc32;
use pocket3d::pak::{AssetKind, Pak, PakError, PakWriter};
use pocket3d::tools::{atlas_bytes, kind_for, u32_bytes};
use pocket3d::texture::TextureData;

#[test]
fn pak_round_trip_and_crc() {
    let world = b"WORLD-blob-bytes-0123".to_vec();
    let mesh = b"a completely different mesh payload".to_vec();
    let tex = vec![0u8, 255, 128, 64, 32, 16, 8, 4, 2, 1];

    let mut w = PakWriter::new();
    w.add("maps/arena", AssetKind::World, &world);
    w.add("mesh/bot", AssetKind::Mesh, &mesh);
    w.add("tex/wall", AssetKind::Texture, &tex);
    let bytes = w.write_to_vec();

    let pak = Pak::parse(bytes.clone()).expect("parse");
    assert_eq!(pak.entries().len(), 3);
    assert!(pak.contains("maps/arena"));
    assert!(!pak.contains("nope"));

    assert_eq!(pak.get("maps/arena").unwrap(), &world[..]);
    assert_eq!(pak.get("mesh/bot").unwrap(), &mesh[..]);
    assert_eq!(pak.get("tex/wall").unwrap(), &tex[..]);

    let kinds: Vec<_> = pak.entries().iter().map(|e| e.kind).collect();
    assert_eq!(kinds, vec![AssetKind::World, AssetKind::Mesh, AssetKind::Texture]);
    assert!(pak.verify().is_ok());

    let mut corrupt = bytes.clone();
    let off = pak.entries()[0].offset as usize;
    corrupt[off] ^= 0xFF;
    let bad = Pak::parse(corrupt).expect("still structurally valid");
    assert!(bad.get("maps/arena").is_none(), "CRC mismatch must yield None");
    assert!(bad.get_checked("maps/arena").is_err());
    assert!(bad.verify().is_err());
    assert_eq!(bad.get("mesh/bot").unwrap(), &mesh[..]);
}

#[test]
fn crc32_known_vector() {
    assert_eq!(crc32(b"123456789"), 0xCBF4_3926);
}

#[test]
fn crc32_of_empty_input() {
    assert_eq!(crc32(b""), 0);
    assert_eq!(crc32(b"a"), 0xE8B7_BE43);
}

#[test]
fn pak_layout_is_exact() {
    let mut w = PakWriter::new();
    w.add("a", AssetKind::Raw, &[1, 2, 3]);
    let bytes = w.write_to_vec();
    let mut expect: Vec<u8> = b"P3DPAK\0".to_vec();
    expect.extend_from_slice(&1u32.to_le_bytes());
    expect.extend_from_slice(&[1, 2, 3]);
    expect.extend_from_slice(&1u32.to_le_bytes());
    expect.extend_from_slice(&1u32.to_le_bytes());
    expect.push(b'a');
    expect.push(6);
    expect.extend_from_slice(&11u64.to_le_bytes());
    expect.extend_from_slice(&3u64.to_le_bytes());
    expect.extend_from_slice(&crc32(&[1, 2, 3]).to_le_bytes());
    expect.extend_from_slice(&14u64.to_le_bytes());
    assert_eq!(bytes, expect);
}

#[test]
fn pak_empty_writer_round_trips() {
    let bytes = PakWriter::new().write_to_vec();
    assert_eq!(bytes.len(), 11 + 4 + 8);
    let pak = Pak::parse(bytes).unwrap();
    assert!(pak.entries().is_empty());
    assert!(pak.get("x").is_none());
    assert!(matches!(pak.get_checked("x"), Ok(None)));
}

#[test]
fn pak_duplicate_names_read_the_first() {
    let mut w = PakWriter::new();
    w.add("dup", AssetKind::Raw, b"first");
    w.add("dup", AssetKind::Raw, b"second");
    let pak = Pak::parse(w.write_to_vec()).unwrap();
    assert_eq!(pak.entries().len(), 2);
    assert_eq!(pak.get("dup").unwrap(), b"first");
}

#[test]
fn pak_rejections() {
    assert_eq!(Pak::parse(vec![0u8; 5]).err(), Some(PakError::TooSmall(5)));
    let mut bytes = PakWriter::new().write_to_vec();
    bytes[0] = b'X';
    assert_eq!(Pak::parse(bytes).err(), Some(PakError::BadMagic));

    let mut bytes = PakWriter::new().write_to_vec();
    bytes[7] = 2;
    assert_eq!(Pak::parse(bytes).err(), Some(PakError::UnsupportedVersion(2)));

    let mut bytes = PakWriter::new().write_to_vec();
    let n = bytes.len();
    bytes[n - 8] = 200;
    assert_eq!(Pak::parse(bytes).err(), Some(PakError::TocOffsetOutOfRange));

    let mut w = PakWriter::new();
    w.add("k", AssetKind::Mesh, &[9]);
    let mut bytes = w.write_to_vec();
    // The kind tag sits right after the 1-byte name in the TOC.
    let tag_at = 11 + 1 + 4 + 4 + 1;
    bytes[tag_at] = 9;
    assert_eq!(Pak::parse(bytes).err(), Some(PakError::UnknownKind(9)));

    let mut w = PakWriter::new();
    w.add("k", AssetKind::Mesh, &[9]);
    let mut bytes = w.write_to_vec();
    // Blob length field: make the range run past the end.
    let len_at = 11 + 1 + 4 + 4 + 1 + 1 + 8;
    bytes[len_at] = 250;
    assert_eq!(Pak::parse(bytes).err(), Some(PakError::BlobOutOfBounds));

    let mut w = PakWriter::new();
    w.add("k", AssetKind::Mesh, &[9]);
    let mut bytes = w.write_to_vec();
    let name_at = 11 + 1 + 4 + 4;
    bytes[name_at] = 0xFF;
    assert_eq!(Pak::parse(bytes).err(), Some(PakError::NameNotUtf8));
}

#[test]
fn pak_crc_mismatch_reports_both_values() {
    let mut w = PakWriter::new();
    w.add("k", AssetKind::Raw, &[1, 2]);
    let mut bytes = w.write_to_vec();
    bytes[11] = 7;
    let pak = Pak::parse(bytes).unwrap();
    let stored = crc32(&[1, 2]);
    let actual = crc32(&[7, 2]);
    assert_eq!(pak.get_checked("k").err(), Some(PakError::CrcMismatch(stored, actual)));
    assert_eq!(pak.verify().err(), Some(PakError::CrcMismatch(stored, actual)));
}

#[test]
fn asset_kind_extensions_and_tags() {
    assert_eq!(AssetKind::World.extension(), ".p3dworld");
    assert_eq!(AssetKind::Raw.extension(), ".p3draw");
    assert_eq!(AssetKind::Texture.to_u8(), 5);
    assert_eq!(AssetKind::from_u8(3), Ok(AssetKind::Anim));
    assert_eq!(AssetKind::from_u8(7), Err(PakError::UnknownKind(7)));
}

#[test]
fn kind_for_uses_the_extension_case_insensitively() {
    assert_eq!(kind_for("bot.GLB"), AssetKind::Skin);
    assert_eq!(kind_for("rig.gltf"), AssetKind::Skin);
    assert_eq!(kind_for("wall.Png"), AssetKind::Texture);
    assert_eq!(kind_for("dust.p3dworld"), AssetKind::World);
    assert_eq!(kind_for("notes.txt"), AssetKind::Raw);
    assert_eq!(kind_for("glb"), AssetKind::Raw);
}

#[test]
fn atlas_bytes_prefixes_the_size() {
    let t = TextureData::solid(1, 2, 3, 4);
    assert_eq!(atlas_bytes(&t), vec![1, 0, 0, 0, 1, 0, 0, 0, 1, 2, 3, 4]);
}

#[test]
fn index_buffers_serialize_in_memory_order() {
    let mut native = Vec::new();
    native.extend_from_slice(&1u32.to_ne_bytes());
    native.extend_from_slice(&0x0A0B_0C0Du32.to_ne_bytes());
    assert_eq!(u32_bytes(&[1, 0x0A0B_0C0D]), native);
    assert!(u32_bytes(&[]).is_empty());
}
