use vstd::prelude::*;
use crate::tag::{child, lookup_from, Compound, McWorldDescriptor, Tag};
use crate::packing::{bits_of, cell_index, data_view, unpack_section, SectionError, CELLS};

verus! {

/// `name` is one of the resource locations in `targets`.
pub open spec fn is_target(targets: Seq<String>, name: Seq<char>) -> bool {
    exists|j: int| 0 <= j < targets.len() && #[trigger] targets[j]@ == name
}

/// A cell hits when its palette index names an entry of the palette that is a target.
pub open spec fn cell_hits(palette: Seq<String>, targets: Seq<String>, idx: u64) -> bool {
    idx < palette.len() && is_target(targets, palette[idx as int]@)
}

/// The hits among the first `n` cells, as (cell, palette index) pairs in cell order.
pub open spec fn hits_upto(
    palette: Seq<String>,
    targets: Seq<String>,
    indices: Seq<u64>,
    n: nat,
) -> Seq<(usize, usize)>
    decreases n,
{
    if n == 0 {
        Seq::empty()
    } else {
        let prev = hits_upto(palette, targets, indices, (n - 1) as nat);
        let idx = indices[n - 1];
        if cell_hits(palette, targets, idx) {
            prev.push(((n - 1) as usize, idx as usize))
        } else {
            prev
        }
    }
}

/// Whether `name` is among `targets`.
pub fn contains_name(targets: &Vec<String>, name: &String) -> (r: bool)
    ensures
        r == is_target(targets@, name@),
{
    let mut j: usize = 0;
    while j < targets.len()
        invariant
            j <= targets@.len(),
            forall|k: int| 0 <= k < j ==> #[trigger] targets@[k]@ != name@,
        decreases targets@.len() - j,
    {
        if targets[j] == *name {
            return true;
        }
        j = j + 1;
    }
    false
}

/// Whether any palette entry is a target; a section without one can be skipped.
pub fn palette_has_target(palette: &Vec<String>, targets: &Vec<String>) -> (r: bool)
    ensures
        r == exists|k: int| 0 <= k < palette@.len() && is_target(targets@, #[trigger] palette@[k]@),
{
    let mut k: usize = 0;
    while k < palette.len()
        invariant
            k <= palette@.len(),
            forall|m: int| 0 <= m < k ==> !is_target(targets@, #[trigger] palette@[m]@),
        decreases palette@.len() - k,
    {
        if contains_name(targets, &palette[k]) {
            return true;
        }
        k = k + 1;
    }
    false
}

/// The cells of a section whose block is a target, with the palette index found there,
/// in cell order. Indices outside the palette never hit.
pub fn section_hits(palette: &Vec<String>, targets: &Vec<String>, indices: &Vec<u64>) -> (r: Vec<(usize, usize)>)
    requires
        indices@.len() == CELLS,
    ensures
        r@ == hits_upto(palette@, targets@, indices@, CELLS as nat),
        forall|h: int| 0 <= h < r@.len() ==> (#[trigger] r@[h]).1 < palette@.len() && r@[h].0 < CELLS,
{
    let mut out: Vec<(usize, usize)> = Vec::new();
    let mut i: usize = 0;
    while i < CELLS
        invariant
            i <= CELLS,
            indices@.len() == CELLS,
            out@ == hits_upto(palette@, targets@, indices@, i as nat),
            forall|h: int| 0 <= h < out@.len() ==> (#[trigger] out@[h]).1 < palette@.len() && out@[h].0 < i,
        decreases CELLS - i,
    {
        let idx = indices[i];
        if idx < palette.len() as u64 && contains_name(targets, &palette[idx as usize]) {
            out.push((i, idx as usize));
        }
        i = i + 1;
    }
    out
}

/// World coordinates (x, y, z) of cell `cell` of the section at altitude `section_y`
/// in the chunk at (`chunk_x`, `chunk_z`). Cells are ordered y, then z, then x.
pub fn cell_position(chunk_x: i32, section_y: i8, chunk_z: i32, cell: usize) -> (r: (i64, i64, i64))
    requires
        cell < CELLS,
    ensures
        r.0 == chunk_x * 16 + (cell % 16),
        r.1 == section_y * 16 + cell / 256,
        r.2 == chunk_z * 16 + (cell / 16) % 16,
{
    let x = (cell % 16) as i64;
    let y = (cell / 256) as i64;
    let z = ((cell / 16) % 16) as i64;
    (chunk_x as i64 * 16 + x, section_y as i64 * 16 + y, chunk_z as i64 * 16 + z)
}

/// A block found in the world: its resource location and coordinates.
pub struct MinecraftBlock {
    pub resource_location: String,
    pub x: i64,
    pub y: i64,
    pub z: i64,
}

/// The palette indices of all cells of a section, as a sequence.
pub open spec fn cell_indices(palette_len: nat, data: Option<Seq<i64>>) -> Seq<u64> {
    Seq::new(CELLS as nat, |i: int| cell_index(data, bits_of(palette_len), i as nat))
}

/// The target blocks of one section of the chunk at (`chunk_x`, `chunk_z`), in cell order.
pub fn section_blocks(
    palette: &Vec<String>,
    data: &Option<Vec<i64>>,
    targets: &Vec<String>,
    chunk_x: i32,
    section_y: i8,
    chunk_z: i32,
) -> (r: Result<Vec<MinecraftBlock>, SectionError>)
    requires
        palette@.len() <= u32::MAX,
    ensures
        r is Ok <==> unpack_section_ok(palette@.len(), data_view(data)),
        r is Ok ==> {
            let hits = hits_upto(
                palette@,
                targets@,
                cell_indices(palette@.len(), data_view(data)),
                CELLS as nat,
            );
            &&& r.unwrap()@.len() == hits.len()
            &&& forall|k: int|
                0 <= k < hits.len() ==> {
                    let blk = #[trigger] r.unwrap()@[k];
                    let cell = hits[k].0 as int;
                    &&& blk.resource_location@ == palette@[hits[k].1 as int]@
                    &&& blk.x == chunk_x * 16 + cell % 16
                    &&& blk.y == section_y * 16 + cell / 256
                    &&& blk.z == chunk_z * 16 + (cell / 16) % 16
                }
            &&& blocks_view(r.unwrap()@) == section_block_seq(
                palette@,
                targets@,
                data_view(data),
                chunk_x as int,
                section_y as int,
                chunk_z as int,
            )
        },
{
    let indices = unpack_section(palette.len() as u32, data)?;
    proof {
        assert(indices@ =~= cell_indices(palette@.len(), data_view(data)));
    }
    let hits = section_hits(palette, targets, &indices);
    let mut out: Vec<MinecraftBlock> = Vec::new();
    let mut k: usize = 0;
    while k < hits.len()
        invariant
            k <= hits@.len(),
            out@.len() == k,
            forall|h: int| 0 <= h < hits@.len() ==> (#[trigger] hits@[h]).1 < palette@.len() && hits@[h].0 < CELLS,
            forall|m: int|
                0 <= m < k ==> {
                    let blk = #[trigger] out@[m];
                    let cell = hits@[m].0 as int;
                    &&& blk.resource_location@ == palette@[hits@[m].1 as int]@
                    &&& blk.x == chunk_x * 16 + cell % 16
                    &&& blk.y == section_y * 16 + cell / 256
                    &&& blk.z == chunk_z * 16 + (cell / 16) % 16
                },
        decreases hits@.len() - k,
    {
        let (cell, idx) = hits[k];
        let (x, y, z) = cell_position(chunk_x, section_y, chunk_z, cell);
        let name = palette[idx].clone();
        out.push(MinecraftBlock { resource_location: name, x, y, z });
        k = k + 1;
    }
    assert(blocks_view(out@) =~= section_block_seq(
        palette@,
        targets@,
        data_view(data),
        chunk_x as int,
        section_y as int,
        chunk_z as int,
    ));
    Ok(out)
}

/// `unpack_section` accepts a section with this palette size and data.
pub open spec fn unpack_section_ok(palette_len: nat, data: Option<Seq<i64>>) -> bool {
    palette_len > 0 && (data is None || data.unwrap().len() == crate::packing::expected_longs(
        bits_of(palette_len),
    ))
}

/// The `Name` string of a palette entry, if it is a compound that has one.
pub open spec fn entry_name(e: Tag) -> Option<String> {
    match e {
        Tag::Compound(c) => match lookup_from(c.values@, seq!['N', 'a', 'm', 'e'], 0) {
            Some(Tag::Str(n)) => Some(n),
            _ => None,
        },
        _ => None,
    }
}

/// Every palette entry has a `Name` string.
pub open spec fn palette_ok(es: Seq<Tag>) -> bool {
    forall|k: int| 0 <= k < es.len() ==> (#[trigger] entry_name(es[k])) is Some
}

/// The names of a palette, in palette order.
pub open spec fn palette_spec(es: Seq<Tag>) -> Seq<String> {
    es.map_values(|e: Tag| entry_name(e).unwrap())
}

/// The resource location names of a palette list; `None` if an entry is not a
/// compound with a `Name` string.
pub fn palette_names(entries: &Vec<Tag>) -> (r: Option<Vec<String>>)
    ensures
        r is Some <==> palette_ok(entries@),
        r matches Some(p) ==> p@ == palette_spec(entries@),
{
    let key = String::from_str("Name");
    proof {
        reveal_strlit("Name");
    }
    let mut out: Vec<String> = Vec::new();
    let mut k: usize = 0;
    while k < entries.len()
        invariant
            k <= entries@.len(),
            key@ == seq!['N', 'a', 'm', 'e'],
            out@ == palette_spec(entries@).subrange(0, k as int),
            forall|m: int| 0 <= m < k ==> (#[trigger] entry_name(entries@[m])) is Some,
        decreases entries@.len() - k,
    {
        match &entries[k] {
            Tag::Compound(e) => match child(e, &key) {
                Some(Tag::Str(n)) => {
                    out.push(n.clone());
                },
                _ => {
                    assert(entry_name(entries@[k as int]) is None);
                    return None;
                },
            },
            _ => {
                assert(entry_name(entries@[k as int]) is None);
                return None;
            },
        }
        k = k + 1;
        assert(out@ =~= palette_spec(entries@).subrange(0, k as int));
    }
    assert(out@ =~= palette_spec(entries@));
    Some(out)
}

fn copy_longs(d: &Vec<i64>) -> (r: Vec<i64>)
    ensures
        r@ == d@,
{
    let mut out: Vec<i64> = Vec::new();
    let mut k: usize = 0;
    while k < d.len()
        invariant
            k <= d@.len(),
            out@ == d@.subrange(0, k as int),
        decreases d@.len() - k,
    {
        out.push(d[k]);
        k = k + 1;
        assert(out@ =~= d@.subrange(0, k as int));
    }
    assert(out@ =~= d@);
    out
}

/// A block as plain values: resource location and world coordinates.
pub open spec fn block_view(b: MinecraftBlock) -> (Seq<char>, int, int, int) {
    (b.resource_location@, b.x as int, b.y as int, b.z as int)
}

pub open spec fn blocks_view(v: Seq<MinecraftBlock>) -> Seq<(Seq<char>, int, int, int)> {
    v.map_values(|b: MinecraftBlock| block_view(b))
}

/// The block that hit `h` (cell, palette index) stands for.
pub open spec fn block_at(palette: Seq<String>, h: (usize, usize), cx: int, sy: int, cz: int) -> (
    Seq<char>,
    int,
    int,
    int,
) {
    let cell = h.0 as int;
    (palette[h.1 as int]@, cx * 16 + cell % 16, sy * 16 + cell / 256, cz * 16 + (cell / 16) % 16)
}

/// The target blocks of a section with this palette and data, in cell order.
pub open spec fn section_block_seq(
    palette: Seq<String>,
    targets: Seq<String>,
    data: Option<Seq<i64>>,
    cx: int,
    sy: int,
    cz: int,
) -> Seq<(Seq<char>, int, int, int)> {
    hits_upto(palette, targets, cell_indices(palette.len(), data), CELLS as nat).map_values(
        |h: (usize, usize)| block_at(palette, h, cx, sy, cz),
    )
}

/// What a section compound yields: `None` when it lacks `Y`, `block_states` or a
/// readable non-empty palette, or when its data cannot be unpacked; no blocks when
/// no palette entry is a target.
pub open spec fn section_spec(sec: Compound, targets: Seq<String>, cx: int, cz: int) -> Option<
    Seq<(Seq<char>, int, int, int)>,
> {
    match lookup_from(sec.values@, seq!['Y'], 0) {
        Some(Tag::Byte(y)) => match lookup_from(sec.values@, key_block_states(), 0) {
            Some(Tag::Compound(st)) => match lookup_from(st.values@, key_palette(), 0) {
                Some(Tag::List(es)) => {
                    if !palette_ok(es@) || es@.len() == 0 || es@.len() > u32::MAX {
                        None
                    } else {
                        let p = palette_spec(es@);
                        if !(exists|k: int| 0 <= k < p.len() && is_target(targets, #[trigger] p[k]@)) {
                            Some(Seq::empty())
                        } else {
                            let data = match lookup_from(st.values@, seq!['d', 'a', 't', 'a'], 0) {
                                Some(Tag::LongArray(d)) => Some(d@),
                                _ => None,
                            };
                            if unpack_section_ok(p.len(), data) {
                                Some(section_block_seq(p, targets, data, cx, y as int, cz))
                            } else {
                                None
                            }
                        }
                    }
                },
                _ => None,
            },
            _ => None,
        },
        _ => None,
    }
}

pub open spec fn key_block_states() -> Seq<char> {
    seq!['b', 'l', 'o', 'c', 'k', '_', 's', 't', 'a', 't', 'e', 's']
}

pub open spec fn key_palette() -> Seq<char> {
    seq!['p', 'a', 'l', 'e', 't', 't', 'e']
}

pub open spec fn key_sections() -> Seq<char> {
    seq!['s', 'e', 'c', 't', 'i', 'o', 'n', 's']
}

/// The target blocks of one section compound, as `section_spec` gives them.
pub fn inspect_section(
    section: &Compound,
    targets: &Vec<String>,
    chunk_x: i32,
    chunk_z: i32,
) -> (r: Option<Vec<MinecraftBlock>>)
    ensures
        r is Some <==> section_spec(*section, targets@, chunk_x as int, chunk_z as int) is Some,
        r matches Some(v) ==> blocks_view(v@) == section_spec(
            *section,
            targets@,
            chunk_x as int,
            chunk_z as int,
        ).unwrap(),
{
    let ky = String::from_str("Y");
    let kb = String::from_str("block_states");
    let kp = String::from_str("palette");
    let kd = String::from_str("data");
    proof {
        reveal_strlit("Y");
        reveal_strlit("block_states");
        reveal_strlit("palette");
        reveal_strlit("data");
        assert(kb@ == key_block_states());
        assert(kp@ == key_palette());
        assert(ky@ == seq!['Y']);
        assert(kd@ == seq!['d', 'a', 't', 'a']);
    }
    let y = match child(section, &ky) {
        Some(Tag::Byte(y)) => *y,
        _ => {
            return None;
        },
    };
    let states = match child(section, &kb) {
        Some(Tag::Compound(s)) => s,
        _ => {
            return None;
        },
    };
    let entries = match child(states, &kp) {
        Some(Tag::List(p)) => p,
        _ => {
            return None;
        },
    };
    let palette = match palette_names(entries) {
        Some(p) => p,
        None => {
            return None;
        },
    };
    if palette.len() == 0 || palette.len() > 0xffff_ffff {
        return None;
    }
    if !palette_has_target(&palette, targets) {
        let none: Vec<MinecraftBlock> = Vec::new();
        assert(blocks_view(none@) =~= Seq::empty());
        return Some(none);
    }
    let data = match child(states, &kd) {
        Some(Tag::LongArray(d)) => Some(copy_longs(d)),
        _ => None,
    };
    match section_blocks(&palette, &data, targets, chunk_x, y, chunk_z) {
        Ok(v) => Some(v),
        Err(_) => None,
    }
}

/// The target blocks of the first `n` entries of a chunk's section list.
pub open spec fn sections_blocks(ss: Seq<Tag>, targets: Seq<String>, cx: int, cz: int, n: nat) -> Seq<
    (Seq<char>, int, int, int),
>
    decreases n,
{
    if n == 0 || n > ss.len() {
        Seq::empty()
    } else {
        let prev = sections_blocks(ss, targets, cx, cz, (n - 1) as nat);
        match ss[n - 1] {
            Tag::Compound(sec) => match section_spec(sec, targets, cx, cz) {
                Some(v) => prev + v,
                None => prev,
            },
            _ => prev,
        }
    }
}

/// The target blocks of a chunk root; none when it lacks `xPos`, `zPos` or `sections`.
pub open spec fn chunk_blocks(root: Compound, targets: Seq<String>) -> Seq<(Seq<char>, int, int, int)> {
    match (
        lookup_from(root.values@, seq!['x', 'P', 'o', 's'], 0),
        lookup_from(root.values@, seq!['z', 'P', 'o', 's'], 0),
        lookup_from(root.values@, key_sections(), 0),
    ) {
        (Some(Tag::Int(cx)), Some(Tag::Int(cz)), Some(Tag::List(ss))) => sections_blocks(
            ss@,
            targets,
            cx as int,
            cz as int,
            ss@.len(),
        ),
        _ => Seq::empty(),
    }
}

/// The target blocks of the first `n` chunk roots, root by root.
pub open spec fn blocks_of(targets: Seq<String>, roots: Seq<Compound>, n: nat) -> Seq<
    (Seq<char>, int, int, int),
>
    decreases n,
{
    if n == 0 || n > roots.len() {
        Seq::empty()
    } else {
        blocks_of(targets, roots, (n - 1) as nat) + chunk_blocks(roots[n - 1], targets)
    }
}

proof fn lemma_view_append(a: Seq<MinecraftBlock>, b: Seq<MinecraftBlock>)
    ensures
        blocks_view(a + b) == blocks_view(a) + blocks_view(b),
{
    assert(blocks_view(a + b) =~= blocks_view(a) + blocks_view(b));
}

/// The target blocks of every section of every chunk root, chunk by chunk.
pub fn inspect_chunks(targets: &Vec<String>, roots: &Vec<Compound>) -> (r: Vec<MinecraftBlock>)
    ensures
        blocks_view(r@) == blocks_of(targets@, roots@, roots@.len()),
{
    let kx = String::from_str("xPos");
    let kz = String::from_str("zPos");
    let ks = String::from_str("sections");
    proof {
        reveal_strlit("xPos");
        reveal_strlit("zPos");
        reveal_strlit("sections");
        assert(kx@ == seq!['x', 'P', 'o', 's']);
        assert(kz@ == seq!['z', 'P', 'o', 's']);
        assert(ks@ == key_sections());
    }
    let mut out: Vec<MinecraftBlock> = Vec::new();
    let mut i: usize = 0;
    assert(blocks_view(out@) =~= Seq::empty());
    while i < roots.len()
        invariant
            i <= roots@.len(),
            kx@ == seq!['x', 'P', 'o', 's'],
            kz@ == seq!['z', 'P', 'o', 's'],
            ks@ == key_sections(),
            blocks_view(out@) == blocks_of(targets@, roots@, i as nat),
        decreases roots@.len() - i,
    {
        let root = &roots[i];
        let ghost base = blocks_view(out@);
        i = i + 1;
        let cx = match child(root, &kx) {
            Some(Tag::Int(v)) => *v,
            _ => {
                assert(blocks_of(targets@, roots@, i as nat) =~= base);
                continue;
            },
        };
        let cz = match child(root, &kz) {
            Some(Tag::Int(v)) => *v,
            _ => {
                assert(blocks_of(targets@, roots@, i as nat) =~= base);
                continue;
            },
        };
        let sections = match child(root, &ks) {
            Some(Tag::List(s)) => s,
            _ => {
                assert(blocks_of(targets@, roots@, i as nat) =~= base);
                continue;
            },
        };
        let mut j: usize = 0;
        assert(base + sections_blocks(sections@, targets@, cx as int, cz as int, 0) =~= base);
        while j < sections.len()
            invariant
                j <= sections@.len(),
                kx@ == seq!['x', 'P', 'o', 's'],
                kz@ == seq!['z', 'P', 'o', 's'],
                ks@ == key_sections(),
                blocks_view(out@) == base + sections_blocks(sections@, targets@, cx as int, cz as int, j as nat),
            decreases sections@.len() - j,
        {
            let ghost before = out@;
            if let Tag::Compound(sec) = &sections[j] {
                if let Some(mut found) = inspect_section(sec, targets, cx, cz) {
                    let ghost added = found@;
                    out.append(&mut found);
                    proof {
                        lemma_view_append(before, added);
                        assert(out@ == before + added);
                    }
                }
            }
            j = j + 1;
            assert(blocks_view(out@) =~= base + sections_blocks(sections@, targets@, cx as int, cz as int, j as nat));
        }
        assert(blocks_view(out@) =~= blocks_of(targets@, roots@, i as nat));
    }
    out
}

/// The blocks among the first `n` of `v` whose resource location is `name`, in order.
pub open spec fn with_name(v: Seq<(Seq<char>, int, int, int)>, name: Seq<char>, n: nat) -> Seq<
    (Seq<char>, int, int, int),
>
    decreases n,
{
    if n == 0 || n > v.len() {
        Seq::empty()
    } else {
        let prev = with_name(v, name, (n - 1) as nat);
        if v[n - 1].0 == name {
            prev.push(v[n - 1])
        } else {
            prev
        }
    }
}

impl MinecraftBlock {
    /// A copy of the block.
    pub fn copy(&self) -> (r: MinecraftBlock)
        ensures
            block_view(r) == block_view(*self),
    {
        MinecraftBlock { resource_location: self.resource_location.clone(), x: self.x, y: self.y, z: self.z }
    }
}

/// The blocks named `name`, in order.
pub fn blocks_named(blocks: &Vec<MinecraftBlock>, name: &String) -> (r: Vec<MinecraftBlock>)
    ensures
        blocks_view(r@) == with_name(blocks_view(blocks@), name@, blocks@.len()),
{
    let mut out: Vec<MinecraftBlock> = Vec::new();
    let mut k: usize = 0;
    assert(blocks_view(out@) =~= Seq::empty());
    while k < blocks.len()
        invariant
            k <= blocks@.len(),
            blocks_view(out@) == with_name(blocks_view(blocks@), name@, k as nat),
        decreases blocks@.len() - k,
    {
        if blocks[k].resource_location == *name {
            let b = blocks[k].copy();
            out.push(b);
        }
        k = k + 1;
        assert(blocks_view(out@) =~= with_name(blocks_view(blocks@), name@, k as nat));
    }
    out
}

/// Groups blocks by target: one entry per target, in target order, holding that
/// target's blocks in their order.
pub fn group_blocks(targets: &Vec<String>, blocks: &Vec<MinecraftBlock>) -> (r: Vec<(String, Vec<MinecraftBlock>)>)
    ensures
        r@.len() == targets@.len(),
        forall|k: int|
            0 <= k < r@.len() ==> (#[trigger] r@[k]).0@ == targets@[k]@ && blocks_view(r@[k].1@)
                == with_name(blocks_view(blocks@), targets@[k]@, blocks@.len()),
{
    let mut out: Vec<(String, Vec<MinecraftBlock>)> = Vec::new();
    let mut k: usize = 0;
    while k < targets.len()
        invariant
            k <= targets@.len(),
            out@.len() == k,
            forall|m: int|
                0 <= m < k ==> (#[trigger] out@[m]).0@ == targets@[m]@ && blocks_view(out@[m].1@)
                    == with_name(blocks_view(blocks@), targets@[m]@, blocks@.len()),
        decreases targets@.len() - k,
    {
        let found = blocks_named(blocks, &targets[k]);
        out.push((targets[k].clone(), found));
        k = k + 1;
    }
    out
}

impl McWorldDescriptor {
    /// The blocks of the world's chunks whose resource location is one of `targets`,
    /// grouped by target.
    pub fn search_blocks(&self, targets: Vec<String>) -> (r: Vec<(String, Vec<MinecraftBlock>)>)
        ensures
            r@.len() == targets@.len(),
            forall|k: int|
                0 <= k < r@.len() ==> (#[trigger] r@[k]).0@ == targets@[k]@ && blocks_view(r@[k].1@)
                    == with_name(
                    blocks_of(targets@, self.tag_compounds_list@, self.tag_compounds_list@.len()),
                    targets@[k]@,
                    blocks_of(targets@, self.tag_compounds_list@, self.tag_compounds_list@.len()).len(),
                ),
    {
        let all = inspect_chunks(&targets, &self.tag_compounds_list);
        group_blocks(&targets, &all)
    }
}

} // verus!
