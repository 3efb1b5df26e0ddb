use vstd::prelude::*;
use vstd::arithmetic::div_mod::lemma_fundamental_div_mod;

verus! {

/// Number of block cells in one 16x16x16 section.
pub const CELLS: usize = 4096;

pub open spec fn pow2(b: nat) -> nat
    decreases b,
{
    if b == 0 {
        1
    } else {
        2 * pow2((b - 1) as nat)
    }
}

/// `b` is the packing width for a palette of `p` entries:
/// the least width of at least four bits whose range covers the palette.
pub open spec fn is_bits_for(p: nat, b: nat) -> bool {
    &&& b >= 4
    &&& pow2(b) >= p
    &&& (b == 4 || pow2((b - 1) as nat) < p)
}

/// Indices held by one 64-bit long at width `bits`.
pub open spec fn per_long_spec(bits: nat) -> nat {
    64nat / bits
}

/// Number of longs a section needs when indices never straddle longs.
pub open spec fn expected_longs(bits: nat) -> nat {
    ((CELLS as nat) + per_long_spec(bits) - 1) as nat / per_long_spec(bits)
}

/// The palette index of cell `i`, read from the packed array `d`.
pub open spec fn index_at_spec(d: Seq<i64>, bits: nat, i: nat) -> u64 {
    let per = per_long_spec(bits);
    let w = d[(i / per) as int] as u64;
    let shift = ((i % per) * bits) as u64;
    let mask = ((1u64 << (bits as u64)) - 1) as u64;
    (w >> shift) & mask
}

proof fn lemma_pow2_u32_bound(b: nat)
    requires
        b <= 32,
    ensures
        pow2(b) <= 0x1_0000_0000,
        pow2(b) >= 1,
        b == 32 ==> pow2(b) == 0x1_0000_0000,
{
    reveal_with_fuel(pow2, 33);
    lemma_pow2_mono(b, 32);
    lemma_pow2_mono(0, b);
}

proof fn lemma_pow2_mono(a: nat, b: nat)
    requires
        a <= b,
    ensures
        pow2(a) <= pow2(b),
    decreases b,
{
    if a < b {
        lemma_pow2_mono(a, (b - 1) as nat);
    }
}

/// Packing width for a palette of `palette_len` entries:
/// `max(4, ceil(log2(palette_len)))`.
pub fn bits_per_index(palette_len: u32) -> (r: u32)
    ensures
        is_bits_for(palette_len as nat, r as nat),
        r <= 32,
{
    let mut b: u32 = 4;
    let mut cap: u64 = 16;
    proof {
        reveal_with_fuel(pow2, 5);
    }
    while cap < palette_len as u64
        invariant
            4 <= b <= 32,
            cap as nat == pow2(b as nat),
            b == 4 || pow2((b - 1) as nat) < palette_len,
            palette_len as nat > pow2((b - 1) as nat) || b == 4,
        decreases 64 - b,
    {
        proof {
            lemma_pow2_u32_bound(b as nat);
            if b == 32 {
                assert(false);
            }
        }
        b = b + 1;
        cap = cap * 2;
    }
    b
}


/// Why a section's packed index array cannot be read.
#[derive(Clone, Copy, Debug, PartialEq, Eq, Structural)]
pub enum SectionError {
    /// The array's length does not match whole indices per long.
    UnsupportedPackingFormat,
    /// The palette is empty.
    EmptyPalette,
}

/// With `len == expected_longs(bits)`, the longs cover every cell and leave
/// less than one long of spare room.
pub proof fn lemma_no_straddle(bits: nat, len: nat)
    requires
        4 <= bits <= 64,
        len == expected_longs(bits),
    ensures
        len * per_long_spec(bits) >= CELLS as nat,
        len * per_long_spec(bits) < CELLS as nat + per_long_spec(bits),
{
    let per = per_long_spec(bits);
    assert(per >= 1 && per <= 16) by (nonlinear_arith)
        requires
            per == 64nat / bits,
            4 <= bits <= 64,
    ;
    let n: int = CELLS as int + per - 1;
    lemma_fundamental_div_mod(n, per as int);
    let q = n / (per as int);
    let rem = n % (per as int);
    assert(len as int == q);
    assert(n == (per as int) * q + rem && 0 <= rem < per);
    assert((len * per) as int == n - rem) by (nonlinear_arith)
        requires
            len as int == q,
            n == (per as int) * q + rem,
    ;
}

/// Indices held by one long at width `bits`.
pub fn per_long(bits: u32) -> (r: u32)
    requires
        bits >= 1,
    ensures
        r as nat == per_long_spec(bits as nat),
        bits <= 32 ==> r >= 2,
{
    proof {
        if bits <= 32 {
            assert(64int / (bits as int) >= 2) by (nonlinear_arith)
                requires
                    1 <= bits <= 32,
            ;
        }
    }
    64 / bits
}

/// Accepts a packed array of `data_len` longs only when indices never straddle longs.
pub fn check_packing(data_len: usize, bits: u32) -> (r: Result<(), SectionError>)
    requires
        4 <= bits <= 32,
    ensures
        r is Ok <==> data_len as nat == expected_longs(bits as nat),
        r is Err ==> r == Err::<(), SectionError>(SectionError::UnsupportedPackingFormat),
{
    let per = per_long(bits) as usize;
    if data_len == (CELLS + per - 1) / per {
        Ok(())
    } else {
        Err(SectionError::UnsupportedPackingFormat)
    }
}

/// The palette index of cell `i` in a section packed at width `bits`.
pub fn index_at(d: &Vec<i64>, bits: u32, i: usize) -> (r: u64)
    requires
        4 <= bits <= 32,
        i < CELLS,
        d@.len() == expected_longs(bits as nat),
    ensures
        r == index_at_spec(d@, bits as nat, i as nat),
{
    let per = per_long(bits) as usize;
    proof {
        lemma_no_straddle(bits as nat, d@.len());
        assert(2 <= per <= 16) by (nonlinear_arith)
            requires
                per == 64nat / (bits as nat),
                4 <= bits <= 32,
        ;
        assert(i / per < d@.len()) by (nonlinear_arith)
            requires
                i < 4096,
                d@.len() * per >= 4096,
                per >= 1,
        ;
        assert((i % per) * (bits as nat) < 64) by (nonlinear_arith)
            requires
                per == 64nat / (bits as nat),
                4 <= bits <= 32,
                i % per < per,
        ;
    }
    let w = d[i / per] as u64;
    let shift = ((i % per) as u64) * (bits as u64);
    let bits64 = bits as u64;
    assert(1u64 << bits64 >= 1) by (bit_vector)
        requires
            bits64 <= 32,
    ;
    let mask = (1u64 << bits64) - 1;
    (w >> shift) & mask
}

/// Palette index of cell `i` of a section: read from `data`, or 0 for a uniform section.
pub open spec fn cell_index(data: Option<Seq<i64>>, bits: nat, i: nat) -> u64 {
    match data {
        Some(d) => index_at_spec(d, bits, i),
        None => 0,
    }
}

/// Unpacks the palette index of every cell of a section, in cell order.
/// A section without `data` is uniform: every index is 0.
pub fn unpack_section(palette_len: u32, data: &Option<Vec<i64>>) -> (r: Result<Vec<u64>, SectionError>)
    ensures
        palette_len == 0 ==> r == Err::<Vec<u64>, SectionError>(SectionError::EmptyPalette),
        palette_len > 0 ==> (r is Ok <==> (data is None
            || data.unwrap()@.len() == expected_longs(bits_of(palette_len as nat)))),
        palette_len > 0 && r is Err ==> r == Err::<Vec<u64>, SectionError>(
            SectionError::UnsupportedPackingFormat,
        ),
        r is Ok ==> r.unwrap()@.len() == CELLS && forall|i: int|
            0 <= i < CELLS ==> #[trigger] r.unwrap()@[i] == cell_index(
                data_view(data),
                bits_of(palette_len as nat),
                i as nat,
            ),
{
    if palette_len == 0 {
        return Err(SectionError::EmptyPalette);
    }
    let bits = bits_per_index(palette_len);
    proof {
        lemma_bits_of(palette_len as nat, bits as nat);
    }
    let mut out: Vec<u64> = Vec::new();
    match data {
        None => {
            let mut i: usize = 0;
            while i < CELLS
                invariant
                    i <= CELLS,
                    out@.len() == i,
                    forall|k: int| 0 <= k < i ==> #[trigger] out@[k] == 0u64,
                decreases CELLS - i,
            {
                out.push(0);
                i = i + 1;
            }
        },
        Some(d) => {
            check_packing(d.len(), bits)?;
            let mut i: usize = 0;
            while i < CELLS
                invariant
                    i <= CELLS,
                    4 <= bits <= 32,
                    d@.len() == expected_longs(bits as nat),
                    out@.len() == i,
                    forall|k: int|
                        0 <= k < i ==> #[trigger] out@[k] == index_at_spec(d@, bits as nat, k as nat),
                decreases CELLS - i,
            {
                let v = index_at(d, bits, i);
                out.push(v);
                i = i + 1;
            }
        },
    }
    Ok(out)
}

pub open spec fn data_view(data: &Option<Vec<i64>>) -> Option<Seq<i64>> {
    match data {
        Some(d) => Some(d@),
        None => None,
    }
}

/// The packing width of a palette of `p` entries.
pub open spec fn bits_of(p: nat) -> nat {
    choose|b: nat| is_bits_for(p, b)
}

proof fn lemma_bits_unique(p: nat, a: nat, b: nat)
    requires
        is_bits_for(p, a),
        is_bits_for(p, b),
    ensures
        a == b,
{
    if a < b {
        lemma_pow2_mono(a, (b - 1) as nat);
    } else if b < a {
        lemma_pow2_mono(b, (a - 1) as nat);
    }
}

/// The width that `bits_per_index` computes is the one `bits_of` names.
pub proof fn lemma_bits_of(p: nat, b: nat)
    requires
        is_bits_for(p, b),
    ensures
        bits_of(p) == b,
{
    lemma_bits_unique(p, b, bits_of(p));
}

} // verus!
