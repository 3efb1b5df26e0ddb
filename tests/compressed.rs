use std::io::Write;

use fastnbt::codec::{decode_file, unframe};
use fastnbt::nbt::decode_root;
use fastnbt::region::{decode_region, read_chunk, ChunkError};
use fastnbt::tag::{collect, first_in, search_by_name, Compound, McWorldDescriptor, Tag};

fn gzip(b: &[u8]) -> Vec<u8> {
    let mut e = flate2::write::GzEncoder::new(Vec::new(), flate2::Compression::default());
    e.write_all(b).unwrap();
    e.finish().unwrap()
}

fn zlib(b: &[u8]) -> Vec<u8> {
    let mut e = flate2::write::ZlibEncoder::new(Vec::new(), flate2::Compression::default());
    e.write_all(b).unwrap();
    e.finish().unwrap()
}

const HI: [u8; 6] = [0x0A, 0x00, 0x02, b'h', b'i', 0x00];

fn put_chunk(file: &mut Vec<u8>, slot: usize, sector: usize, scheme: u8, payload: &[u8]) {
    file[4 * slot + 2] = sector as u8;
    file[4 * slot + 3] = 1;
    let at = sector * 4096;
    let len = (payload.len() + 1) as u32;
    file[at..at + 4].copy_from_slice(&len.to_be_bytes());
    file[at + 4] = scheme;
    file[at + 5..at + 5 + payload.len()].copy_from_slice(payload);
}

#[test]
fn compressed_region_chunks_decode() {
    let mut file = vec![0u8; 8192 + 4 * 4096];
    put_chunk(&mut file, 0, 2, 1, &gzip(&HI));
    put_chunk(&mut file, 1, 3, 2, &zlib(&HI));
    put_chunk(&mut file, 2, 4, 3, &HI);
    put_chunk(&mut file, 3, 5, 2, &[1, 2, 3, 4]);
    assert_eq!(read_chunk(&file, 0).unwrap(), HI.to_vec());
    assert_eq!(read_chunk(&file, 1).unwrap(), HI.to_vec());
    let (chunks, failures) = decode_region(&file).unwrap();
    assert_eq!(chunks.len(), 3);
    assert!(chunks.iter().all(|c| c.1.name == "hi"));
    assert_eq!(chunks.iter().map(|c| c.0).collect::<Vec<_>>(), vec![0, 1, 2]);
    assert_eq!(failures, vec![(3, ChunkError::Corrupt(2))]);
}

#[test]
fn standalone_framing_is_detected() {
    assert_eq!(unframe(gzip(&HI)), HI.to_vec());
    assert_eq!(unframe(zlib(&HI)), HI.to_vec());
    assert_eq!(unframe(HI.to_vec()), HI.to_vec());
    assert_eq!(decode_root(&unframe(gzip(&HI))).unwrap().name, "hi");
}

fn named(name: &str, values: Vec<(String, Tag)>) -> Compound {
    Compound { name: name.to_string(), values }
}

#[test]
fn search_reaches_compounds_in_nested_lists() {
    let deep = Tag::List(vec![Tag::List(vec![Tag::Compound(named("k", vec![]))])]);
    let root = named("root", vec![("ls".to_string(), deep)]);
    assert_eq!(search_by_name(&root, &"k".to_string(), false).len(), 1);
    assert_eq!(search_by_name(&root, &"k".to_string(), true).len(), 1);
    let w = McWorldDescriptor::new(String::new(), vec![root]);
    assert_eq!(w.search_compound(&"k".to_string(), true).1.len(), 1);
}

fn section_chunk(palette: &[&str], data: Vec<i64>) -> Compound {
    let entries = palette
        .iter()
        .map(|n| Tag::Compound(named("", vec![("Name".to_string(), Tag::Str(n.to_string()))])))
        .collect();
    let states = named(
        "block_states",
        vec![("palette".to_string(), Tag::List(entries)), ("data".to_string(), Tag::LongArray(data))],
    );
    let sec = named("", vec![("Y".to_string(), Tag::Byte(0)), ("block_states".to_string(), Tag::Compound(states))]);
    named(
        "",
        vec![
            ("xPos".to_string(), Tag::Int(0)),
            ("zPos".to_string(), Tag::Int(0)),
            ("sections".to_string(), Tag::List(vec![Tag::Compound(sec)])),
        ],
    )
}

#[test]
fn search_blocks_groups_by_target() {
    let names: Vec<String> = (0..9).map(|k| format!("minecraft:b{}", k)).collect();
    let refs: Vec<&str> = names.iter().map(|s| s.as_str()).collect();
    let w = McWorldDescriptor::new(String::new(), vec![section_chunk(&refs, vec![0x8765_4321; 256])]);
    let groups = w.search_blocks(names.clone());
    assert_eq!(groups.len(), 9);
    assert_eq!(groups[0].0, "minecraft:b0");
    assert_eq!(groups[0].1.len(), 2048);
    assert!(groups[0].1.iter().all(|b| b.x >= 8));
    for j in 1..9 {
        assert_eq!(groups[j].1.len(), 256);
        assert!(groups[j].1.iter().all(|b| b.x == j as i64 - 1));
    }
}

#[test]
fn straddling_layout_is_rejected() {
    let names: Vec<String> = (0..17).map(|k| format!("minecraft:b{}", k)).collect();
    let refs: Vec<&str> = names.iter().map(|s| s.as_str()).collect();
    let target = vec!["minecraft:b0".to_string()];
    let old = McWorldDescriptor::new(String::new(), vec![section_chunk(&refs, vec![0; 320])]);
    assert_eq!(old.search_blocks(target.clone())[0].1.len(), 0);
    let new = McWorldDescriptor::new(String::new(), vec![section_chunk(&refs, vec![0; 342])]);
    assert_eq!(new.search_blocks(target)[0].1.len(), 4096);
}

#[test]
fn decode_file_reads_every_framing() {
    for bytes in [gzip(&HI), zlib(&HI), HI.to_vec()] {
        let c = decode_file(bytes).unwrap();
        assert_eq!(c.name, "hi");
        assert!(c.values.is_empty());
    }
}

#[test]
fn collect_appends_after_existing_results() {
    let other = named("k", vec![]);
    let root = named("k", vec![("k".to_string(), Tag::Compound(named("k", vec![])))]);
    let mut out = vec![&other];
    collect(&root, &"k".to_string(), &mut out);
    assert_eq!(out.len(), 3);
    assert_eq!(out[1].values.len(), 1);
    assert_eq!(first_in(&root, &"k".to_string()).unwrap().values.len(), 1);
    assert!(first_in(&root, &"z".to_string()).is_none());
}
