use fastnbt::nbt::{decode_root, read_be, read_payload, read_string, read_u8, NbtError};
use fastnbt::region::{chunk_frame, location, present_slots, RegionError};
use fastnbt::tag::{search_by_name, Compound, Tag};

fn nested() -> Vec<u8> {
    vec![
        0x0A, 0x00, 0x01, b'a', 0x0A, 0x00, 0x01, b'b', 0x03, 0x00, 0x01, b'n', 0x00, 0x00, 0x00, 0x2A,
        0x00, 0x00,
    ]
}

#[test]
fn minimal_compound() {
    let c = decode_root(&vec![0x0A, 0x00, 0x02, b'h', b'i', 0x00]).unwrap();
    assert_eq!(c.name, "hi");
    assert_eq!(c.values.len(), 0);
}

#[test]
fn nested_compound_and_search() {
    let root = decode_root(&nested()).unwrap();
    assert_eq!(root.name, "a");
    assert_eq!(root.values.len(), 1);
    assert_eq!(root.values[0].0, "b");
    match &root.values[0].1 {
        Tag::Compound(b) => {
            assert_eq!(b.name, "b");
            assert_eq!(b.values[0].0, "n");
            assert!(matches!(b.values[0].1, Tag::Int(42)));
        }
        _ => panic!("expected a compound"),
    }
    let found = search_by_name(&root, &"b".to_string(), true);
    assert_eq!(found.len(), 1);
    assert_eq!(found[0].name, "b");
    assert_eq!(search_by_name(&root, &"missing".to_string(), false).len(), 0);
}

fn named(name: &str, values: Vec<(String, Tag)>) -> Compound {
    Compound { name: name.to_string(), values }
}

#[test]
fn search_descends_into_matches_and_lists() {
    let inner = named("k", vec![]);
    let outer = named("k", vec![("k".to_string(), Tag::Compound(inner))]);
    let listed = Tag::List(vec![Tag::Compound(named("k", vec![])), Tag::Int(3)]);
    let root = named(
        "root",
        vec![("k".to_string(), Tag::Compound(outer)), ("xs".to_string(), listed)],
    );
    let all = search_by_name(&root, &"k".to_string(), false);
    assert_eq!(all.len(), 3);
    assert_eq!(all[0].values.len(), 1);
    assert_eq!(all[1].values.len(), 0);
    let first = search_by_name(&root, &"k".to_string(), true);
    assert_eq!(first.len(), 1);
    assert_eq!(first[0].values.len(), 1);
    assert_eq!(search_by_name(&root, &"root".to_string(), false).len(), 1);
}

#[test]
fn list_of_compounds_decodes() {
    // xs: List<Compound> [{k: Int 1}, {k: Int 2}]
    let bytes = vec![
        0x0A, 0x00, 0x00, 0x09, 0x00, 0x02, b'x', b's', 0x0A, 0x00, 0x00, 0x00, 0x02, 0x03, 0x00,
        0x01, b'k', 0x00, 0x00, 0x00, 0x01, 0x00, 0x03, 0x00, 0x01, b'k', 0x00, 0x00, 0x00, 0x02,
        0x00, 0x00,
    ];
    let root = decode_root(&bytes).unwrap();
    assert_eq!(root.values[0].0, "xs");
    match &root.values[0].1 {
        Tag::List(xs) => {
            assert_eq!(xs.len(), 2);
            match &xs[1] {
                Tag::Compound(c) => assert!(matches!(c.values[0].1, Tag::Int(2))),
                _ => panic!("expected a compound"),
            }
        }
        _ => panic!("expected a list"),
    }
}

#[test]
fn decode_errors() {
    assert!(matches!(decode_root(&vec![]), Err(NbtError::Truncated)));
    assert!(matches!(decode_root(&vec![0x03, 0, 0]), Err(NbtError::NotCompound)));
    assert!(matches!(decode_root(&vec![0x0A, 0x00, 0x02, b'h']), Err(NbtError::Truncated)));
    assert!(matches!(decode_root(&vec![0x0A, 0x00, 0x00, 0x0D]), Err(NbtError::Truncated)));
    assert!(matches!(
        decode_root(&vec![0x0A, 0x00, 0x00, 0x0D, 0x00, 0x00]),
        Err(NbtError::UnknownTagId(13))
    ));
    assert!(matches!(
        read_payload(&vec![0xFF, 0xFF, 0xFF, 0xFF], 0, 11, 4),
        Err(NbtError::NegativeLength)
    ));
    assert!(matches!(read_string(&vec![0x00, 0x02, 0xC3, 0x28], 0), Err(NbtError::InvalidUtf8)));
    assert!(matches!(read_payload(&vec![0x0A, 0, 0], 0, 9, 0), Err(NbtError::DepthExceeded)));
}

#[test]
fn primitive_reads() {
    let b = vec![0x12, 0x34, 0xFF, 0xFF, 0xFF, 0xFE];
    assert_eq!(read_u8(&b, 1), Ok((0x34, 2)));
    assert_eq!(read_u8(&b, 6), Err(NbtError::Truncated));
    assert_eq!(read_be(&b, 0, 2), Ok((0x1234, 2)));
    assert_eq!(read_be(&b, 4, 4), Err(NbtError::Truncated));
    assert!(matches!(read_payload(&b, 2, 3, 1), Ok((Tag::Int(-2), 6))));
    assert!(matches!(read_payload(&b, 0, 1, 1), Ok((Tag::Byte(0x12), 1))));
    assert!(matches!(read_payload(&b, 0, 2, 1), Ok((Tag::Short(0x1234), 2))));
    let s = read_string(&vec![0x00, 0x02, b'o', b'k', 0x99], 0).unwrap();
    assert_eq!(s, ("ok".to_string(), 4));
}

fn region_with(slots: &[(usize, u32, u8)]) -> Vec<u8> {
    let mut file = vec![0u8; 8192 + 4 * 4096];
    for &(slot, off, count) in slots {
        file[4 * slot] = (off >> 16) as u8;
        file[4 * slot + 1] = (off >> 8) as u8;
        file[4 * slot + 2] = off as u8;
        file[4 * slot + 3] = count;
    }
    file
}

#[test]
fn region_present_slots() {
    let file = region_with(&[(0, 2, 1), (5, 3, 1), (1023, 4, 1)]);
    assert_eq!(present_slots(&file), Ok(vec![0, 5, 1023]));
    assert_eq!(location(&file, 5), (3, 1));
    assert_eq!(location(&file, 6), (0, 0));
    assert_eq!(present_slots(&vec![0u8; 100]), Err(RegionError::HeaderShort));
}

#[test]
fn region_chunk_frames() {
    let mut file = region_with(&[(0, 2, 1), (5, 3, 1), (1023, 4, 1)]);
    let payload = [0x0A, 0x00, 0x00, 0x00];
    for sector in [2usize, 3] {
        let at = sector * 4096;
        file[at + 3] = 5;
        file[at + 4] = 3;
        file[at + 5..at + 9].copy_from_slice(&payload);
    }
    // The third chunk claims more bytes than its one sector holds.
    file[4 * 4096] = 0x01;
    file[4 * 4096 + 4] = 3;
    let mut decoded = 0;
    let mut failed = 0;
    for slot in present_slots(&file).unwrap() {
        let (off, count) = location(&file, slot);
        match chunk_frame(&file, off, count) {
            Ok(f) => {
                assert_eq!(f.scheme, 3);
                assert_eq!(f.len, 4);
                let bytes = file[f.start..f.start + f.len].to_vec();
                assert!(decode_root(&bytes).is_ok());
                decoded += 1;
            }
            Err(e) => {
                assert_eq!(e, RegionError::BadLength);
                failed += 1;
            }
        }
    }
    assert_eq!((decoded, failed), (2, 1));
    assert_eq!(chunk_frame(&file, 1, 1), Err(RegionError::BadSector));
    assert_eq!(chunk_frame(&file, 6, 1), Err(RegionError::BadSector));
    file[3 * 4096 + 4] = 7;
    assert_eq!(chunk_frame(&file, 3, 1), Err(RegionError::UnsupportedCompression(7)));
}

#[test]
fn deep_nesting_and_negative_list_length() {
    let mut bytes = vec![0x0A, 0x00, 0x00];
    for _ in 0..600 {
        bytes.extend_from_slice(&[0x0A, 0x00, 0x00]);
    }
    bytes.extend(std::iter::repeat(0u8).take(601));
    assert!(matches!(decode_root(&bytes), Err(NbtError::DepthExceeded)));
    // A list with a negative length is empty whatever its element type says.
    let list = vec![0x0A, 0x00, 0x00, 0x09, 0x00, 0x01, b'l', 0x63, 0xFF, 0xFF, 0xFF, 0xFF, 0x00];
    let root = decode_root(&list).unwrap();
    assert!(matches!(&root.values[0].1, Tag::List(xs) if xs.is_empty()));
    // Bytes after the root's End tag are ignored.
    let trailing = vec![0x0A, 0x00, 0x00, 0x00, 0xFF, 0xFF];
    assert!(decode_root(&trailing).is_ok());
}
