use fastnbt::inspect::{cell_position, contains_name, palette_has_target, section_hits};
use fastnbt::packing::{bits_per_index, check_packing, index_at, per_long, unpack_section, SectionError};

fn names(v: &[&str]) -> Vec<String> {
    v.iter().map(|s| s.to_string()).collect()
}

#[test]
fn bits_for_small_and_large_palettes() {
    assert_eq!(bits_per_index(1), 4);
    assert_eq!(bits_per_index(2), 4);
    assert_eq!(bits_per_index(16), 4);
    assert_eq!(bits_per_index(17), 5);
    assert_eq!(bits_per_index(9), 4);
    assert_eq!(bits_per_index(4096), 12);
    assert_eq!(bits_per_index(5000), 13);
    assert_eq!(bits_per_index(u32::MAX), 32);
}

#[test]
fn per_long_and_packing_lengths() {
    assert_eq!(per_long(4), 16);
    assert_eq!(per_long(5), 12);
    assert_eq!(per_long(13), 4);
    assert_eq!(check_packing(256, 4), Ok(()));
    assert_eq!(check_packing(342, 5), Ok(()));
    // A straddling layout packs 5-bit indices into 320 longs.
    assert_eq!(check_packing(320, 5), Err(SectionError::UnsupportedPackingFormat));
}

#[test]
fn no_straddle_bounds_hold_for_every_width() {
    for bits in 4u32..=32 {
        let per = per_long(bits) as usize;
        let len = (4096 + per - 1) / per;
        assert!(check_packing(len, bits).is_ok());
        assert!(len * per >= 4096);
        assert!(len * per < 4096 + per);
    }
}

#[test]
fn index_reads_low_bits_first() {
    let mut d = vec![0i64; 256];
    d[0] = 0x21;
    d[1] = 0x7 << 4;
    assert_eq!(index_at(&d, 4, 0), 1);
    assert_eq!(index_at(&d, 4, 1), 2);
    assert_eq!(index_at(&d, 4, 2), 0);
    assert_eq!(index_at(&d, 4, 17), 7);
}

#[test]
fn all_zero_data_with_two_entry_palette() {
    let palette = names(&["minecraft:air", "minecraft:stone"]);
    let data = Some(vec![0i64; 256]);
    let indices = unpack_section(2, &data).unwrap();
    let air = section_hits(&palette, &names(&["minecraft:air"]), &indices);
    assert_eq!(air.len(), 4096);
    let stone = section_hits(&palette, &names(&["minecraft:stone"]), &indices);
    assert_eq!(stone.len(), 0);
}

#[test]
fn nine_entry_palette_indices_stay_in_range() {
    let mut data = vec![0i64; 256];
    for (n, w) in data.iter_mut().enumerate() {
        let mut v: u64 = 0;
        for k in 0..16u64 {
            v |= ((n as u64 + k) % 9) << (4 * k);
        }
        *w = v as i64;
    }
    let indices = unpack_section(9, &Some(data)).unwrap();
    assert_eq!(indices.len(), 4096);
    assert!(indices.iter().all(|&i| i < 9));
    assert_eq!(indices[16 * 3 + 2], 5);
}

#[test]
fn uniform_section_without_data() {
    let palette = names(&["minecraft:stone"]);
    let indices = unpack_section(1, &None).unwrap();
    assert!(indices.iter().all(|&i| i == 0));
    let hits = section_hits(&palette, &names(&["minecraft:stone"]), &indices);
    assert_eq!(hits.len(), 4096);
    assert_eq!(hits[4095], (4095, 0));
}

#[test]
fn empty_palette_and_bad_length_are_errors() {
    assert_eq!(unpack_section(0, &None), Err(SectionError::EmptyPalette));
    assert_eq!(unpack_section(2, &Some(vec![0; 100])), Err(SectionError::UnsupportedPackingFormat));
}

#[test]
fn out_of_palette_index_never_hits() {
    let palette = names(&["minecraft:air", "minecraft:stone"]);
    let mut indices = vec![0u64; 4096];
    indices[10] = 1;
    indices[11] = 7;
    let hits = section_hits(&palette, &names(&["minecraft:stone"]), &indices);
    assert_eq!(hits, vec![(10, 1)]);
}

#[test]
fn target_lookup() {
    let t = names(&["minecraft:stone", "minecraft:dirt"]);
    assert!(contains_name(&t, &"minecraft:dirt".to_string()));
    assert!(!contains_name(&t, &"minecraft:air".to_string()));
    assert!(palette_has_target(&names(&["minecraft:air", "minecraft:dirt"]), &t));
    assert!(!palette_has_target(&names(&["minecraft:air"]), &t));
}

#[test]
fn cell_coordinates_are_yzx_ordered() {
    assert_eq!(cell_position(0, 0, 0, 0), (0, 0, 0));
    assert_eq!(cell_position(1, 2, 3, 256 + 32 + 5), (21, 33, 50));
    assert_eq!(cell_position(-1, -4, -2, 4095), (-1, -49, -17));
}
