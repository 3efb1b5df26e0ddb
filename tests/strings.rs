use fastnbt::mutf8::decode_mutf8;
use fastnbt::nbt::{decode_root, read_string, NbtError};
use fastnbt::region::{timestamps, RegionError};
use fastnbt::tag::Tag;

#[test]
fn modified_utf8_nul_and_surrogates() {
    assert_eq!(decode_mutf8(&vec![0xC0, 0x80]).unwrap(), "\u{0}");
    // U+1F600 as a CESU-8 surrogate pair.
    assert_eq!(decode_mutf8(&vec![0xED, 0xA0, 0xBD, 0xED, 0xB8, 0x80]).unwrap(), "\u{1F600}");
    assert_eq!(decode_mutf8(&vec![b'o', 0xC3, 0xA9, 0xE2, 0x82, 0xAC]).unwrap(), "o\u{e9}\u{20ac}");
    assert_eq!(decode_mutf8(&vec![]).unwrap(), "");
    assert!(decode_mutf8(&vec![0x00]).is_none());
    assert!(decode_mutf8(&vec![0xFF]).is_none());
    assert!(decode_mutf8(&vec![0xED, 0xA0, 0xBD]).is_none());
    assert!(decode_mutf8(&vec![0xED, 0xB8, 0x80]).is_none());
}

#[test]
fn nul_string_tag_decodes() {
    let bytes = vec![0x0A, 0x00, 0x00, 0x08, 0x00, 0x01, b's', 0x00, 0x02, 0xC0, 0x80, 0x00];
    let root = decode_root(&bytes).unwrap();
    assert!(matches!(&root.values[0].1, Tag::Str(s) if s == "\u{0}"));
    assert!(matches!(read_string(&vec![0x00, 0x01, 0xFF], 0), Err(NbtError::InvalidUtf8)));
}

#[test]
fn float_list_with_negative_length_is_empty() {
    let bytes = vec![0x0A, 0x00, 0x00, 0x09, 0x00, 0x01, b'l', 0x05, 0xFF, 0xFF, 0xFF, 0xFF, 0x00];
    let root = decode_root(&bytes).unwrap();
    assert_eq!(root.values.len(), 1);
    assert!(matches!(&root.values[0].1, Tag::List(xs) if xs.is_empty()));
    let mut trailing = bytes.clone();
    trailing.extend_from_slice(&[0x0A, 0x01, 0x02]);
    let again = decode_root(&trailing).unwrap();
    assert_eq!(again.values.len(), 1);
}

#[test]
fn timestamp_table() {
    let mut file = vec![0u8; 8192];
    file[4096..4100].copy_from_slice(&1_700_000_000i32.to_be_bytes());
    file[4096 + 4 * 1023..].copy_from_slice(&(-5i32).to_be_bytes());
    let t = timestamps(&file).unwrap();
    assert_eq!(t.len(), 1024);
    assert_eq!(t[0], 1_700_000_000);
    assert_eq!(t[1], 0);
    assert_eq!(t[1023], -5);
    assert_eq!(timestamps(&vec![0u8; 8000]), Err(RegionError::HeaderShort));
}
