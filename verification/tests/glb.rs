use pocket3d::glb::{
    assemble_glb, AccessorType, BinBuilder, BufferView, ARRAY_BUFFER, ELEMENT_ARRAY_BUFFER, U16,
    U32,
};

#[test]
fn glb_frames_padded_json_and_bin_chunks() {
    let json = br#"{"asset":{"version":"2.0"}}"#;
    let bin = [1u8, 2, 3, 4, 5];
    let out = assemble_glb(json, &bin);
    // 27 bytes of JSON pad to 28, 5 bytes of BIN pad to 8.
    assert_eq!(out.len(), 12 + 8 + 28 + 8 + 8);
    assert_eq!(&out[0..4], b"glTF");
    assert_eq!(u32::from_le_bytes(out[4..8].try_into().unwrap()), 2);
    assert_eq!(u32::from_le_bytes(out[8..12].try_into().unwrap()), out.len() as u32);
    assert_eq!(u32::from_le_bytes(out[12..16].try_into().unwrap()), 28);
    assert_eq!(&out[16..20], b"JSON");
    assert_eq!(&out[20..47], json);
    assert_eq!(out[47], b' ');
    assert_eq!(u32::from_le_bytes(out[48..52].try_into().unwrap()), 8);
    assert_eq!(&out[52..56], b"BIN\0");
    assert_eq!(&out[56..64], &[1, 2, 3, 4, 5, 0, 0, 0]);
}

#[test]
fn glb_of_empty_parts_is_just_headers() {
    let out = assemble_glb(b"", b"");
    assert_eq!(out.len(), 28);
    assert_eq!(u32::from_le_bytes(out[8..12].try_into().unwrap()), 28);
}

#[test]
fn bin_builder_aligns_views_to_four_bytes() {
    let mut b = BinBuilder::new();
    assert_eq!(b.push_view(&[9, 9, 9], Some(ARRAY_BUFFER)), 0);
    assert_eq!(b.push_view(&[7, 7], None), 1);
    assert_eq!(
        b.buffer_views(),
        &[
            BufferView { byte_offset: 0, byte_length: 3, target: Some(ARRAY_BUFFER) },
            BufferView { byte_offset: 4, byte_length: 2, target: None },
        ]
    );
    assert_eq!(b.bin_len(), 6);
    assert_eq!(b.into_bin(), vec![9, 9, 9, 0, 7, 7]);
}

#[test]
fn integer_accessors_encode_little_endian() {
    let mut b = BinBuilder::new();
    let a = b.accessor_indices(&[1, 0x0102_0304]);
    assert_eq!(a, 0);
    let j = b.accessor_vec4_u16(&[[1, 2, 3, 0x0405]], None);
    assert_eq!(j, 1);
    let acc = b.accessors();
    assert_eq!(acc[0].buffer_view, 0);
    assert_eq!(acc[0].component_type, U32);
    assert_eq!(acc[0].count, 2);
    assert_eq!(acc[0].kind, AccessorType::Scalar);
    assert_eq!(acc[1].buffer_view, 1);
    assert_eq!(acc[1].component_type, U16);
    assert_eq!(acc[1].kind, AccessorType::Vec4);
    assert!(acc[1].min.is_none() && acc[1].max.is_none());
    assert_eq!(b.buffer_views()[0].target, Some(ELEMENT_ARRAY_BUFFER));
    assert_eq!(b.buffer_views()[1].byte_offset, 8);
    assert_eq!(
        b.into_bin(),
        vec![1, 0, 0, 0, 4, 3, 2, 1, 1, 0, 2, 0, 3, 0, 5, 4]
    );
}
