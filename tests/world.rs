use fastnbt::inspect::{inspect_chunks, inspect_section, palette_names, section_blocks};
use fastnbt::region::{decode_region, ChunkError, RegionError};
use fastnbt::tag::{child, Compound, McWorldDescriptor, Tag};

fn named(name: &str, values: Vec<(String, Tag)>) -> Compound {
    Compound { name: name.to_string(), values }
}

fn entry(name: &str, t: Tag) -> (String, Tag) {
    (name.to_string(), t)
}

fn palette_tag(names: &[&str]) -> Tag {
    Tag::List(
        names
            .iter()
            .map(|n| Tag::Compound(named("", vec![entry("Name", Tag::Str(n.to_string()))])))
            .collect(),
    )
}

fn section(y: i8, names: &[&str], data: Option<Vec<i64>>) -> Tag {
    let mut states = vec![entry("palette", palette_tag(names))];
    if let Some(d) = data {
        states.push(entry("data", Tag::LongArray(d)));
    }
    Tag::Compound(named(
        "",
        vec![entry("Y", Tag::Byte(y)), entry("block_states", Tag::Compound(named("block_states", states)))],
    ))
}

fn chunk(x: i32, z: i32, sections: Vec<Tag>) -> Compound {
    named(
        "",
        vec![entry("xPos", Tag::Int(x)), entry("zPos", Tag::Int(z)), entry("sections", Tag::List(sections))],
    )
}

fn strings(v: &[&str]) -> Vec<String> {
    v.iter().map(|s| s.to_string()).collect()
}

#[test]
fn air_and_stone_section() {
    let roots = vec![chunk(0, 0, vec![section(0, &["minecraft:air", "minecraft:stone"], Some(vec![0; 256]))])];
    let air = inspect_chunks(&strings(&["minecraft:air"]), &roots);
    assert_eq!(air.len(), 4096);
    assert!(air.iter().all(|b| b.resource_location == "minecraft:air"));
    assert_eq!(inspect_chunks(&strings(&["minecraft:stone"]), &roots).len(), 0);
}

#[test]
fn uniform_section_coordinates() {
    let roots = vec![chunk(2, -1, vec![section(-1, &["minecraft:stone"], None)])];
    let found = inspect_chunks(&strings(&["minecraft:stone"]), &roots);
    assert_eq!(found.len(), 4096);
    assert_eq!((found[0].x, found[0].y, found[0].z), (32, -16, -16));
    let last = &found[4095];
    assert_eq!((last.x, last.y, last.z), (47, -1, -1));
}

#[test]
fn single_block_in_packed_section() {
    let mut data = vec![0i64; 256];
    // Cell 17 (x = 1, z = 1, y = 0) holds palette entry 1.
    data[1] = 1 << 4;
    let palette = strings(&["minecraft:air", "minecraft:gold_block"]);
    let blocks = section_blocks(&palette, &Some(data), &strings(&["minecraft:gold_block"]), 1, 3, 2).unwrap();
    assert_eq!(blocks.len(), 1);
    assert_eq!(blocks[0].resource_location, "minecraft:gold_block");
    assert_eq!((blocks[0].x, blocks[0].y, blocks[0].z), (17, 48, 33));
}

#[test]
fn unreadable_sections_are_skipped() {
    let bad_len = section(0, &["minecraft:air", "minecraft:stone"], Some(vec![0; 10]));
    let no_y = Tag::Compound(named("", vec![]));
    let good = section(1, &["minecraft:stone"], None);
    let roots = vec![chunk(0, 0, vec![bad_len, no_y, good]), named("", vec![])];
    let found = inspect_chunks(&strings(&["minecraft:stone"]), &roots);
    assert_eq!(found.len(), 4096);
    assert!(found.iter().all(|b| b.y >= 16 && b.y < 32));
    if let Tag::Compound(s) = section(0, &[], None) {
        assert!(inspect_section(&s, &strings(&["minecraft:stone"]), 0, 0).is_none());
    }
}

#[test]
fn palette_names_need_name_strings() {
    if let Tag::List(entries) = palette_tag(&["a", "b"]) {
        assert_eq!(palette_names(&entries), Some(strings(&["a", "b"])));
    }
    let odd = vec![Tag::Compound(named("", vec![entry("Name", Tag::Int(1))]))];
    assert_eq!(palette_names(&odd), None);
}

#[test]
fn child_finds_first_by_name() {
    let c = named("c", vec![entry("a", Tag::Int(1)), entry("b", Tag::Int(2)), entry("a", Tag::Int(3))]);
    assert!(matches!(child(&c, &"a".to_string()), Some(Tag::Int(1))));
    assert!(matches!(child(&c, &"b".to_string()), Some(Tag::Int(2))));
    assert!(child(&c, &"z".to_string()).is_none());
}

#[test]
fn world_descriptor_search() {
    let a = named("a", vec![entry("t", Tag::Compound(named("t", vec![])))]);
    let b = named("t", vec![]);
    let w = McWorldDescriptor::new(String::new(), vec![a, b]);
    assert_eq!(w.get_mc_version(), "0.0.0");
    let (found, all) = w.search_compound(&"t".to_string(), false);
    assert!(found);
    assert_eq!(all.len(), 2);
    let (found, first) = w.search_compound(&"t".to_string(), true);
    assert!(found);
    assert_eq!(first.len(), 1);
    let (found, none) = w.search_compound(&"q".to_string(), false);
    assert!(!found);
    assert!(none.is_empty());
}

#[test]
fn region_with_three_slots_and_one_corrupt_chunk() {
    let mut file = vec![0u8; 8192 + 3 * 4096];
    for (slot, sector) in [(0usize, 2u8), (5, 3), (1023, 4)] {
        file[4 * slot + 2] = sector;
        file[4 * slot + 3] = 1;
    }
    for sector in [2usize, 4] {
        let at = sector * 4096;
        file[at + 3] = 5;
        file[at + 4] = 3;
        file[at + 5..at + 9].copy_from_slice(&[0x0A, 0x00, 0x00, 0x00]);
    }
    // Slot 5 declares more bytes than its one sector holds.
    file[3 * 4096 + 2] = 0x10;
    file[3 * 4096 + 4] = 3;
    let (chunks, failures) = decode_region(&file).unwrap();
    assert_eq!(chunks.len(), 2);
    assert_eq!(chunks.iter().map(|c| c.0).collect::<Vec<_>>(), vec![0, 1023]);
    assert_eq!(failures, vec![(5, ChunkError::Frame(RegionError::BadLength))]);
    assert_eq!(decode_region(&vec![0u8; 8191]).err(), Some(RegionError::HeaderShort));
}
