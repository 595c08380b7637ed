use atlas_engine::{
    AtlasMapping, ImageFile, ImageFileKind, encode_atlas_file, encode_atlas_page,
    encode_bulk_slot, get_static_atlas_path, push_uint, uuid_to_string,
};

#[test]
fn uuid_text_matches_uuid_crate() {
    let samples: [u128; 4] = [
        0,
        1,
        0x550e8400e29b41d4a716446655440000,
        u128::MAX,
    ];
    for id in samples {
        let ours = uuid_to_string(id);
        let theirs = uuid::Uuid::from_u128(id).hyphenated().to_string();
        assert_eq!(ours, theirs);
    }
}

/// Builds the same page record with rmp itself, field by field, as the
/// oracle for the verified encoder.
fn rmp_page(data: &[u8], mapping: &[AtlasMapping]) -> Vec<u8> {
    let mut buf: Vec<u8> = Vec::new();
    rmp::encode::write_map_len(&mut buf, 2).unwrap();
    rmp::encode::write_str(&mut buf, "data").unwrap();
    rmp::encode::write_bin(&mut buf, data).unwrap();
    rmp::encode::write_str(&mut buf, "mapping").unwrap();
    rmp::encode::write_array_len(&mut buf, mapping.len() as u32).unwrap();
    for m in mapping {
        rmp::encode::write_map_len(&mut buf, 5).unwrap();
        rmp::encode::write_str(&mut buf, "id").unwrap();
        rmp::encode::write_str(&mut buf, &uuid::Uuid::from_u128(m.id).hyphenated().to_string())
            .unwrap();
        rmp::encode::write_str(&mut buf, "width").unwrap();
        rmp::encode::write_uint(&mut buf, m.width as u64).unwrap();
        rmp::encode::write_str(&mut buf, "height").unwrap();
        rmp::encode::write_uint(&mut buf, m.height as u64).unwrap();
        rmp::encode::write_str(&mut buf, "x").unwrap();
        rmp::encode::write_uint(&mut buf, m.x as u64).unwrap();
        rmp::encode::write_str(&mut buf, "y").unwrap();
        rmp::encode::write_uint(&mut buf, m.y as u64).unwrap();
    }
    buf
}

#[test]
fn page_record_matches_rmp_oracle() {
    let data: Vec<u8> = vec![9, 8, 7, 6, 5];
    let mapping = vec![
        AtlasMapping { id: 0x1234, width: 40, height: 30, x: 0, y: 0 },
        AtlasMapping { id: u128::MAX, width: 300, height: 70000, x: 130, y: 254 },
    ];
    let ours = encode_atlas_page(&data, &mapping);
    let oracle = rmp_page(&data, &mapping);
    assert_eq!(ours, oracle);
}

#[test]
fn page_record_with_large_blob_matches_rmp_oracle() {
    let data: Vec<u8> = vec![0xAB; 70000];
    let mapping: Vec<AtlasMapping> = Vec::new();
    let ours = encode_atlas_page(&data, &mapping);
    let oracle = rmp_page(&data, &mapping);
    assert_eq!(ours, oracle);
}

#[test]
fn atlas_file_prepends_page_count() {
    let pages = vec![
        (vec![1u8, 2], vec![AtlasMapping { id: 5, width: 1, height: 1, x: 0, y: 0 }]),
        (vec![3u8], Vec::new()),
    ];
    let file = encode_atlas_file(&pages);
    // fixarray of two entries, then the first page record.
    assert_eq!(file[0], 0x92);
    let mut expected = vec![0x92u8];
    expected.extend_from_slice(&encode_atlas_page(&pages[0].0, &pages[0].1));
    expected.extend_from_slice(&encode_atlas_page(&pages[1].0, &pages[1].1));
    assert_eq!(file, expected);
}

#[test]
fn bulk_slot_nil_and_blob() {
    assert_eq!(encode_bulk_slot(None), vec![0xC0]);

    let blob = vec![1u8, 2, 3];
    let slot = encode_bulk_slot(Some(&blob));
    let mut oracle: Vec<u8> = Vec::new();
    rmp::encode::write_bin(&mut oracle, &blob).unwrap();
    assert_eq!(slot, oracle);
}

#[test]
fn stored_file_paths() {
    let thumb = ImageFile {
        image_id: 1,
        width: 30,
        height: 20,
        extension: String::from("jpg"),
        kind: ImageFileKind::Thumbnail,
    };
    assert_eq!(
        thumb.get_path(),
        "./images/00000000-0000-0000-0000-000000000001/30x20.jpg"
    );
    let original = ImageFile {
        image_id: 0xABCD,
        width: 1920,
        height: 1080,
        extension: String::from("png"),
        kind: ImageFileKind::Original,
    };
    assert_eq!(
        original.get_path(),
        "./images/00000000-0000-0000-0000-00000000abcd/original.png"
    );
    assert_eq!(
        get_static_atlas_path(3),
        "./images/atlases/00000000-0000-0000-0000-000000000003.msgp"
    );
}

#[test]
fn uint_encoding_matches_rmp_at_the_boundaries() {
    let values: [u64; 11] = [
        0,
        1,
        127,
        128,
        255,
        256,
        65535,
        65536,
        4294967295,
        4294967296,
        u64::MAX,
    ];
    for v in values {
        let mut ours: Vec<u8> = Vec::new();
        push_uint(&mut ours, v);
        let mut oracle: Vec<u8> = Vec::new();
        rmp::encode::write_uint(&mut oracle, v).unwrap();
        assert_eq!(ours, oracle, "encoding of {}", v);
    }
}
