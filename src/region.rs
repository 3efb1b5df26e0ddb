use vstd::prelude::*;
use crate::nbt::{decode_root, read_count, root_end, root_tree, signed, NbtError};
use crate::tag::Compound;
use crate::codec::{gunzipped, inflate_gzip, inflate_zlib, unzlibbed};

verus! {

/// Bytes in one region sector.
pub const SECTOR: usize = 4096;

/// Chunk slots in a region file.
pub const SLOTS: usize = 1024;

/// Why a region or one of its chunks cannot be read.
#[derive(Clone, Copy, Debug, PartialEq, Eq, Structural)]
pub enum RegionError {
    /// The file is shorter than its two header tables.
    HeaderShort,
    /// A location entry points into the tables or past the end of the file.
    BadSector,
    /// A chunk's declared length does not fit its sectors.
    BadLength,
    /// A chunk's compression scheme is not 1, 2 or 3.
    UnsupportedCompression(u8),
}

/// Where one chunk's payload lies, and how it is compressed.
#[derive(Clone, Copy, Debug, PartialEq, Eq, Structural)]
pub struct ChunkFrame {
    pub scheme: u8,
    pub start: usize,
    pub len: usize,
}

/// Big-endian value of the bytes `b[at .. at + n]`.
pub open spec fn be(b: Seq<u8>, at: int, n: nat) -> nat
    decreases n,
{
    if n == 0 {
        0
    } else {
        be(b, at, (n - 1) as nat) * 256 + b[at + n - 1] as nat
    }
}

/// Sector offset of slot `i` in the location table.
pub open spec fn slot_offset(b: Seq<u8>, i: int) -> nat {
    be(b, 4 * i, 3)
}

/// Sector count of slot `i` in the location table.
pub open spec fn slot_count(b: Seq<u8>, i: int) -> nat {
    b[4 * i + 3] as nat
}

/// Slot `i` holds a chunk.
pub open spec fn slot_present(b: Seq<u8>, i: int) -> bool {
    slot_offset(b, i) != 0 || slot_count(b, i) != 0
}

/// Number of present slots among the first `n`.
pub open spec fn present_upto(b: Seq<u8>, n: nat) -> nat
    decreases n,
{
    if n == 0 {
        0
    } else {
        present_upto(b, (n - 1) as nat) + if slot_present(b, n - 1) {
            1nat
        } else {
            0nat
        }
    }
}

/// The location entry of slot `slot`: (sector offset, sector count).
pub fn location(file: &Vec<u8>, slot: usize) -> (r: (u32, u8))
    requires
        file@.len() >= 2 * SECTOR,
        slot < SLOTS,
    ensures
        r.0 as nat == slot_offset(file@, slot as int),
        r.1 as nat == slot_count(file@, slot as int),
{
    let at = 4 * slot;
    let off = (file[at] as u32) * 65536 + (file[at + 1] as u32) * 256 + file[at + 2] as u32;
    proof {
        reveal_with_fuel(be, 4);
    }
    (off, file[at + 3])
}

/// Slots that hold a chunk, in slot order.
pub fn present_slots(file: &Vec<u8>) -> (r: Result<Vec<usize>, RegionError>)
    ensures
        file@.len() < 2 * SECTOR <==> r == Err::<Vec<usize>, RegionError>(RegionError::HeaderShort),
        r is Err ==> file@.len() < 2 * SECTOR,
        r is Ok ==> r.unwrap()@.len() == present_upto(file@, SLOTS as nat),
        r is Ok ==> forall|k: int|
            0 <= k < r.unwrap()@.len() ==> #[trigger] r.unwrap()@[k] < SLOTS && slot_present(
                file@,
                r.unwrap()@[k] as int,
            ),
        r is Ok ==> forall|k: int, m: int|
            0 <= k < m < r.unwrap()@.len() ==> #[trigger] r.unwrap()@[k] < #[trigger] r.unwrap()@[m],
        r is Ok ==> forall|s: int|
            0 <= s < SLOTS && slot_present(file@, s) ==> exists|m: int|
                0 <= m < r.unwrap()@.len() && #[trigger] r.unwrap()@[m] == s,
{
    if file.len() < 2 * SECTOR {
        return Err(RegionError::HeaderShort);
    }
    let mut out: Vec<usize> = Vec::new();
    let mut i: usize = 0;
    while i < SLOTS
        invariant
            i <= SLOTS,
            file@.len() >= 2 * SECTOR,
            out@.len() == present_upto(file@, i as nat),
            forall|k: int| 0 <= k < out@.len() ==> #[trigger] out@[k] < i && slot_present(file@, out@[k] as int),
            forall|k: int, m: int| 0 <= k < m < out@.len() ==> #[trigger] out@[k] < #[trigger] out@[m],
            forall|s: int| 0 <= s < i && slot_present(file@, s) ==> exists|m: int| 0 <= m < out@.len() && #[trigger] out@[m] == s,
        decreases SLOTS - i,
    {
        let (off, count) = location(file, i);
        let ghost before = out@;
        if off != 0 || count != 0 {
            out.push(i);
            assert(out@[out@.len() - 1] == i);
        }
        assert forall|s: int| 0 <= s < i + 1 && slot_present(file@, s) implies exists|m: int| 0 <= m < out@.len() && #[trigger] out@[m] == s by {
            if s < i {
                let m = choose|m: int| 0 <= m < before.len() && before[m] == s;
                assert(out@[m] == before[m]);
            } else {
                assert(out@[out@.len() - 1] == s);
            }
        }
        i = i + 1;
    }
    let r: Result<Vec<usize>, RegionError> = Ok(out);
    assert forall|s: int| 0 <= s < SLOTS && slot_present(file@, s) implies exists|m: int|
        0 <= m < r.unwrap()@.len() && #[trigger] r.unwrap()@[m] == s by {
        let m = choose|m: int| 0 <= m < out@.len() && #[trigger] out@[m] == s;
        assert(r.unwrap()@[m] == s);
    }
    r
}

/// Where the chunk with location entry (`offset`, `count`) lies, or why it cannot be read.
pub open spec fn frame_spec(file: Seq<u8>, offset: int, count: int) -> Result<ChunkFrame, RegionError> {
    let at = offset * SECTOR as int;
    let l = be(file, at, 4);
    if offset < 2 || (offset + count) * SECTOR as int > file.len() {
        Err(RegionError::BadSector)
    } else if !(1 <= l <= count * SECTOR as int - 4) {
        Err(RegionError::BadLength)
    } else if !(1 <= file[at + 4] <= 3) {
        Err(RegionError::UnsupportedCompression(file[at + 4]))
    } else {
        Ok(ChunkFrame { scheme: file[at + 4], start: (at + 5) as usize, len: (l - 1) as usize })
    }
}

/// The decompressed NBT bytes of the chunk in slot `slot`, or why they cannot be had.
pub open spec fn chunk_bytes(file: Seq<u8>, slot: int) -> Result<Seq<u8>, ChunkError> {
    match frame_spec(file, slot_offset(file, slot) as int, slot_count(file, slot) as int) {
        Err(e) => Err(ChunkError::Frame(e)),
        Ok(f) => {
            let raw = file.subrange(f.start as int, f.start + f.len);
            if f.scheme == 1 {
                match gunzipped(raw) {
                    Some(v) => Ok(v),
                    None => Err(ChunkError::Corrupt(1)),
                }
            } else if f.scheme == 2 {
                match unzlibbed(raw) {
                    Some(v) => Ok(v),
                    None => Err(ChunkError::Corrupt(2)),
                }
            } else {
                Ok(raw)
            }
        },
    }
}

/// Locates the payload of the chunk whose location entry is (`offset`, `count`).
pub fn chunk_frame(file: &Vec<u8>, offset: u32, count: u8) -> (r: Result<ChunkFrame, RegionError>)
    ensures
        (offset < 2 || (offset as nat + count as nat) * SECTOR as nat > file@.len()) <==> r
            == Err::<ChunkFrame, RegionError>(RegionError::BadSector),
        r is Ok ==> {
            let at = offset as int * SECTOR as int;
            let l = be(file@, at, 4);
            &&& 1 <= l <= count as int * SECTOR as int - 4
            &&& r.unwrap().scheme == file@[at + 4]
            &&& 1 <= r.unwrap().scheme <= 3
            &&& r.unwrap().start == at + 5
            &&& r.unwrap().len == l - 1
        },
        r == Err::<ChunkFrame, RegionError>(RegionError::BadLength) ==> {
            let at = offset as int * SECTOR as int;
            let l = be(file@, at, 4);
            !(1 <= l <= count as int * SECTOR as int - 4)
        },
        r matches Err(RegionError::UnsupportedCompression(s)) ==> {
            let at = offset as int * SECTOR as int;
            let l = be(file@, at, 4);
            &&& 1 <= l <= count as int * SECTOR as int - 4
            &&& s == file@[at + 4]
            &&& !(1 <= s <= 3)
        },
        r is Err ==> r matches Err(RegionError::BadSector) || r matches Err(RegionError::BadLength)
            || r matches Err(RegionError::UnsupportedCompression(_)),
        r == frame_spec(file@, offset as int, count as int),
{
    let off = offset as u64;
    let cnt = count as u64;
    if off < 2 || (off + cnt) * (SECTOR as u64) > file.len() as u64 {
        return Err(RegionError::BadSector);
    }
    let at = (off as usize) * SECTOR;
    proof {
        assert(off * 4096 + 4096 <= (off + cnt) * 4096 || cnt == 0) by (nonlinear_arith);
    }
    if count == 0 {
        return Err(RegionError::BadLength);
    }
    let l: u64 = (file[at] as u64) * 16777216 + (file[at + 1] as u64) * 65536
        + (file[at + 2] as u64) * 256 + file[at + 3] as u64;
    proof {
        reveal_with_fuel(be, 5);
    }
    if l < 1 || l + 4 > cnt * (SECTOR as u64) {
        return Err(RegionError::BadLength);
    }
    let scheme = file[at + 4];
    if scheme < 1 || scheme > 3 {
        return Err(RegionError::UnsupportedCompression(scheme));
    }
    Ok(ChunkFrame { scheme, start: at + 5, len: (l - 1) as usize })
}

/// Why one chunk of a region was not decoded.
#[derive(Clone, Copy, Debug, PartialEq, Eq, Structural)]
pub enum ChunkError {
    Frame(RegionError),
    /// The payload does not inflate under its compression scheme.
    Corrupt(u8),
    Nbt(NbtError),
}

/// The chunk payload described by `f`, when it is stored uncompressed.
fn payload(file: &Vec<u8>, f: ChunkFrame) -> (r: Vec<u8>)
    requires
        f.start + f.len <= file@.len(),
    ensures
        r@ == file@.subrange(f.start as int, f.start + f.len),
{
    let total = file.len();
    let mut out: Vec<u8> = Vec::new();
    let mut k: usize = 0;
    while k < f.len
        invariant
            k <= f.len,
            f.start + f.len <= total,
            total == file@.len(),
            out@ == file@.subrange(f.start as int, f.start + k),
        decreases f.len - k,
    {
        out.push(file[f.start + k]);
        k = k + 1;
        assert(out@ =~= file@.subrange(f.start as int, f.start + k));
    }
    out
}

/// The decompressed bytes of one chunk, or why they cannot be had.
pub fn read_chunk(file: &Vec<u8>, slot: usize) -> (r: Result<Vec<u8>, ChunkError>)
    requires
        file@.len() >= 2 * SECTOR,
        slot < SLOTS,
    ensures
        r matches Ok(v) ==> chunk_bytes(file@, slot as int) == Ok::<Seq<u8>, ChunkError>(v@),
        r matches Err(e) ==> chunk_bytes(file@, slot as int) == Err::<Seq<u8>, ChunkError>(e),
{
    let (off, count) = location(file, slot);
    match chunk_frame(file, off, count) {
        Ok(f) => {
            proof {
                assert(f.start + f.len <= file@.len()) by (nonlinear_arith)
                    requires
                        f.start == off * 4096 + 5,
                        f.len + 1 <= count * 4096 - 4,
                        (off + count) * 4096 <= file@.len(),
                ;
            }
            let raw = payload(file, f);
            if f.scheme == 1 {
                match inflate_gzip(&raw) {
                    Some(v) => Ok(v),
                    None => Err(ChunkError::Corrupt(1)),
                }
            } else if f.scheme == 2 {
                match inflate_zlib(&raw) {
                    Some(v) => Ok(v),
                    None => Err(ChunkError::Corrupt(2)),
                }
            } else {
                Ok(raw)
            }
        },
        Err(e) => Err(ChunkError::Frame(e)),
    }
}

/// Slot `s` holds a chunk whose bytes decode to a root compound.
pub open spec fn slot_decodes(file: Seq<u8>, s: int) -> bool {
    &&& slot_present(file, s)
    &&& chunk_bytes(file, s) is Ok
    &&& root_end(chunk_bytes(file, s)->Ok_0) is Ok
}

/// `c` is the root compound decoded from the chunk in slot `s`.
#[verifier::opaque]
pub open spec fn chunk_ok(file: Seq<u8>, s: int, c: Compound) -> bool {
    &&& 0 <= s < SLOTS
    &&& slot_decodes(file, s)
    &&& root_tree(chunk_bytes(file, s)->Ok_0, c)
}

/// `e` is why the present chunk in slot `s` was not decoded.
#[verifier::opaque]
pub open spec fn failure_ok(file: Seq<u8>, s: int, e: ChunkError) -> bool {
    &&& 0 <= s < SLOTS
    &&& slot_present(file, s)
    &&& match e {
        ChunkError::Nbt(n) => chunk_bytes(file, s) is Ok && root_end(chunk_bytes(file, s)->Ok_0)
            == Err::<int, NbtError>(n),
        _ => chunk_bytes(file, s) == Err::<Seq<u8>, ChunkError>(e),
    }
}

/// Decodes the chunk in a present slot.
pub fn decode_slot(file: &Vec<u8>, slot: usize) -> (r: Result<Compound, ChunkError>)
    requires
        file@.len() >= 2 * SECTOR,
        slot < SLOTS,
        slot_present(file@, slot as int),
    ensures
        r is Ok <==> slot_decodes(file@, slot as int),
        r matches Ok(c) ==> chunk_ok(file@, slot as int, c),
        r matches Err(e) ==> failure_ok(file@, slot as int, e),
{
    reveal(chunk_ok);
    reveal(failure_ok);
    match read_chunk(file, slot) {
        Ok(bytes) => match decode_root(&bytes) {
            Ok(c) => Ok(c),
            Err(e) => Err(ChunkError::Nbt(e)),
        },
        Err(e) => Err(e),
    }
}

/// `chunks` holds, in slot order, the slot and root of every present chunk that
/// decodes, and `failures` the slot and reason of every present chunk that does not.
pub open spec fn region_ok(file: Seq<u8>, chunks: Seq<(usize, Compound)>, failures: Seq<(usize, ChunkError)>) -> bool {
    &&& chunks.len() + failures.len() == present_upto(file, SLOTS as nat)
    &&& forall|k: int| 0 <= k < chunks.len() ==> chunk_ok(file, chunks[k].0 as int, #[trigger] chunks[k].1)
    &&& forall|k: int, m: int| 0 <= k < m < chunks.len() ==> (#[trigger] chunks[k]).0 < (#[trigger] chunks[m]).0
    &&& forall|s: int| 0 <= s < SLOTS && #[trigger] slot_decodes(file, s) ==> exists|k: int|
        0 <= k < chunks.len() && chunks[k].0 == s
    &&& forall|k: int| 0 <= k < failures.len() ==> failure_ok(file, failures[k].0 as int, #[trigger] failures[k].1)
    &&& forall|s: int|
        0 <= s < SLOTS && slot_present(file, s) && !(#[trigger] slot_decodes(file, s)) ==> exists|k: int|
            0 <= k < failures.len() && failures[k].0 == s
}

/// Decodes every present chunk of a region file, in slot order. Each chunk either
/// yields its root compound, with its slot, or a failure with its slot; one failure
/// does not stop the others.
pub fn decode_region(file: &Vec<u8>) -> (r: Result<(Vec<(usize, Compound)>, Vec<(usize, ChunkError)>), RegionError>)
    ensures
        file@.len() < 2 * SECTOR <==> r is Err,
        r is Err ==> r == Err::<(Vec<(usize, Compound)>, Vec<(usize, ChunkError)>), RegionError>(
            RegionError::HeaderShort,
        ),
        r matches Ok((c, f)) ==> region_ok(file@, c@, f@),
{
    if file.len() < 2 * SECTOR {
        return Err(RegionError::HeaderShort);
    }
    let slots = match present_slots(file) {
        Ok(s) => s,
        Err(e) => {
            return Err(e);
        },
    };
    let mut chunks: Vec<(usize, Compound)> = Vec::new();
    let mut failures: Vec<(usize, ChunkError)> = Vec::new();
    let mut k: usize = 0;
    while k < slots.len()
        invariant
            k <= slots@.len(),
            file@.len() >= 2 * SECTOR,
            forall|m: int| 0 <= m < slots@.len() ==> #[trigger] slots@[m] < SLOTS && slot_present(file@, slots@[m] as int),
            forall|m1: int, m2: int| 0 <= m1 < m2 < slots@.len() ==> #[trigger] slots@[m1] < #[trigger] slots@[m2],
            chunks@.len() + failures@.len() == k,
            slots@.len() == present_upto(file@, SLOTS as nat),
            forall|s: int| 0 <= s < SLOTS && slot_present(file@, s) ==> exists|m: int| 0 <= m < slots@.len() && #[trigger] slots@[m] == s,
            forall|j: int| 0 <= j < chunks@.len() ==> chunk_ok(file@, chunks@[j].0 as int, #[trigger] chunks@[j].1),
            forall|j: int| 0 <= j < chunks@.len() ==> exists|m: int| 0 <= m < k && #[trigger] slots@[m] == (#[trigger] chunks@[j]).0,
            forall|j1: int, j2: int| 0 <= j1 < j2 < chunks@.len() ==> (#[trigger] chunks@[j1]).0 < (#[trigger] chunks@[j2]).0,
            forall|j: int| 0 <= j < failures@.len() ==> failure_ok(file@, failures@[j].0 as int, #[trigger] failures@[j].1),
            forall|m: int| 0 <= m < k ==> exists|j: int|
                (0 <= j < chunks@.len() && #[trigger] slots@[m] == chunks@[j].0 && slot_decodes(file@, slots@[m] as int))
                || (0 <= j < failures@.len() && slots@[m] == failures@[j].0 && !slot_decodes(file@, slots@[m] as int)),
        decreases slots@.len() - k,
    {
        let slot = slots[k];
        let ghost fb = failures@;
        let ghost cb = chunks@;
        match decode_slot(file, slot) {
            Ok(c) => {
                proof {
                    assert forall|j: int| 0 <= j < cb.len() implies cb[j].0 < slot by {
                        let m = choose|m: int| 0 <= m < k && #[trigger] slots@[m] == cb[j].0;
                        assert(slots@[m] < slots@[k as int]);
                    }
                }
                chunks.push((slot, c));
                proof {
                    assert(slots@[k as int] == chunks@[chunks@.len() - 1].0);
                    assert forall|j: int| 0 <= j < chunks@.len() implies exists|m: int|
                        0 <= m < k + 1 && #[trigger] slots@[m] == (#[trigger] chunks@[j]).0 by {
                        if j < cb.len() {
                            assert(chunks@[j] == cb[j]);
                            let m = choose|m: int| 0 <= m < k && #[trigger] slots@[m] == cb[j].0;
                            assert(slots@[m] == chunks@[j].0);
                        } else {
                            assert(slots@[k as int] == chunks@[j].0);
                        }
                    }
                    assert forall|m: int| 0 <= m < k + 1 implies exists|j: int|
                        (0 <= j < chunks@.len() && #[trigger] slots@[m] == chunks@[j].0 && slot_decodes(file@, slots@[m] as int))
                        || (0 <= j < failures@.len() && slots@[m] == failures@[j].0 && !slot_decodes(file@, slots@[m] as int)) by {
                        if m < k {
                            let j = choose|j: int|
                                (0 <= j < cb.len() && #[trigger] slots@[m] == cb[j].0 && slot_decodes(file@, slots@[m] as int))
                                || (0 <= j < fb.len() && slots@[m] == fb[j].0 && !slot_decodes(file@, slots@[m] as int));
                            if 0 <= j < cb.len() && slots@[m] == cb[j].0 {
                                assert(chunks@[j] == cb[j]);
                            } else {
                                assert(failures@[j] == fb[j]);
                            }
                        } else {
                            assert(chunks@[chunks@.len() - 1].0 == slots@[m]);
                        }
                    }
                }
            },
            Err(e) => {
                failures.push((slot, e));
                proof {
                    assert forall|m: int| 0 <= m < k + 1 implies exists|j: int|
                        (0 <= j < chunks@.len() && #[trigger] slots@[m] == chunks@[j].0 && slot_decodes(file@, slots@[m] as int))
                        || (0 <= j < failures@.len() && slots@[m] == failures@[j].0 && !slot_decodes(file@, slots@[m] as int)) by {
                        if m < k {
                            let j = choose|j: int|
                                (0 <= j < cb.len() && #[trigger] slots@[m] == cb[j].0 && slot_decodes(file@, slots@[m] as int))
                                || (0 <= j < fb.len() && slots@[m] == fb[j].0 && !slot_decodes(file@, slots@[m] as int));
                            if 0 <= j < cb.len() && slots@[m] == cb[j].0 {
                                assert(chunks@[j] == cb[j]);
                            } else {
                                assert(failures@[j] == fb[j]);
                            }
                        } else {
                            assert(failures@[failures@.len() - 1].0 == slots@[m]);
                        }
                    }
                }
            },
        }
        k = k + 1;
    }
    proof {
        assert forall|s: int| 0 <= s < SLOTS && #[trigger] slot_decodes(file@, s) implies exists|j: int|
            0 <= j < chunks@.len() && chunks@[j].0 == s by {
            let m = choose|m: int| 0 <= m < slots@.len() && #[trigger] slots@[m] == s;
            let j = choose|j: int|
                (0 <= j < chunks@.len() && #[trigger] slots@[m] == chunks@[j].0 && slot_decodes(file@, slots@[m] as int))
                || (0 <= j < failures@.len() && slots@[m] == failures@[j].0 && !slot_decodes(file@, slots@[m] as int));
        }
        assert forall|s: int|
            0 <= s < SLOTS && slot_present(file@, s) && !(#[trigger] slot_decodes(file@, s)) implies exists|j: int|
                0 <= j < failures@.len() && failures@[j].0 == s by {
            let m = choose|m: int| 0 <= m < slots@.len() && #[trigger] slots@[m] == s;
            let j = choose|j: int|
                (0 <= j < chunks@.len() && #[trigger] slots@[m] == chunks@[j].0 && slot_decodes(file@, slots@[m] as int))
                || (0 <= j < failures@.len() && slots@[m] == failures@[j].0 && !slot_decodes(file@, slots@[m] as int));
        }
    }
    assert(region_ok(file@, chunks@, failures@));
    Ok((chunks, failures))
}

/// The timestamp table: the big-endian i32 epoch seconds of each of the 1024 slots.
pub fn timestamps(file: &Vec<u8>) -> (r: Result<Vec<i32>, RegionError>)
    ensures
        file@.len() < 2 * SECTOR <==> r is Err,
        r is Err ==> r == Err::<Vec<i32>, RegionError>(RegionError::HeaderShort),
        r matches Ok(v) ==> v@.len() == SLOTS && forall|i: int|
            0 <= i < SLOTS ==> #[trigger] v@[i] == signed(be(file@, SECTOR + 4 * i, 4), 32),
{
    if file.len() < 2 * SECTOR {
        return Err(RegionError::HeaderShort);
    }
    let mut out: Vec<i32> = Vec::new();
    let mut i: usize = 0;
    while i < SLOTS
        invariant
            i <= SLOTS,
            file@.len() >= 2 * SECTOR,
            out@.len() == i,
            forall|j: int| 0 <= j < i ==> #[trigger] out@[j] == signed(be(file@, SECTOR + 4 * j, 4), 32),
        decreases SLOTS - i,
    {
        let t = match read_count(file, SECTOR + 4 * i) {
            Ok((t, _)) => t,
            Err(_) => {
                return Err(RegionError::HeaderShort);
            },
        };
        out.push(t);
        i = i + 1;
    }
    Ok(out)
}

} // verus!
