use vstd::prelude::*;
use crate::region::be;
use crate::tag::{Compound, Tag};
use crate::mutf8::{decode_mutf8, mutf8_from, text_is};

verus! {

/// Deepest nesting of compounds and lists that the decoder follows.
pub const MAX_DEPTH: usize = 512;

/// Why a tag stream cannot be decoded.
#[derive(Clone, Copy, Debug, PartialEq, Eq, Structural)]
pub enum NbtError {
    Truncated,
    InvalidUtf8,
    NegativeLength,
    UnknownTagId(u8),
    DepthExceeded,
    /// The stream does not start with a compound tag.
    NotCompound,
}

/// Reads one byte at `pos`.
pub fn read_u8(b: &Vec<u8>, pos: usize) -> (r: Result<(u8, usize), NbtError>)
    ensures
        pos < b@.len() <==> r is Ok,
        r is Err ==> r == Err::<(u8, usize), NbtError>(NbtError::Truncated),
        r matches Ok((v, p)) ==> v == b@[pos as int] && p == pos + 1,
{
    if pos < b.len() {
        Ok((b[pos], pos + 1))
    } else {
        Err(NbtError::Truncated)
    }
}

/// Reads `n` big-endian bytes at `pos` as an unsigned number.
pub fn read_be(b: &Vec<u8>, pos: usize, n: usize) -> (r: Result<(u64, usize), NbtError>)
    requires
        n <= 8,
    ensures
        pos + n <= b@.len() <==> r is Ok,
        r is Err ==> r == Err::<(u64, usize), NbtError>(NbtError::Truncated),
        r matches Ok((v, p)) ==> v as nat == be(b@, pos as int, n as nat) && p == pos + n,
{
    if n > b.len() || pos > b.len() - n {
        return Err(NbtError::Truncated);
    }
    let mut v: u64 = 0;
    let mut k: usize = 0;
    while k < n
        invariant
            k <= n <= 8,
            pos + n <= b@.len() <= usize::MAX,
            v as nat == be(b@, pos as int, k as nat),
        decreases n - k,
    {
        proof {
            lemma_be_bound(b@, pos as int, k as nat);
            reveal_with_fuel(pow256, 8);
            assert(pow256(k as nat) <= 0x100_0000_0000_0000) by {
                if k == 0 {} else if k == 1 {} else if k == 2 {} else if k == 3 {}
                else if k == 4 {} else if k == 5 {} else if k == 6 {} else {}
            }
            assert(v * 256 + 255 <= 0xffff_ffff_ffff_ffff) by (nonlinear_arith)
                requires
                    v < 0x100_0000_0000_0000,
            ;
        }
        assert(pos + k < b@.len());
        let byte = b[pos + k] as u64;
        v = v * 256 + byte;
        k = k + 1;
    }
    Ok((v, pos + n))
}

spec fn pow256(n: nat) -> nat
    decreases n,
{
    if n == 0 {
        1
    } else {
        256 * pow256((n - 1) as nat)
    }
}

proof fn lemma_be_bound(b: Seq<u8>, at: int, n: nat)
    ensures
        be(b, at, n) < pow256(n),
    decreases n,
{
    if n > 0 {
        lemma_be_bound(b, at, (n - 1) as nat);
        assert(be(b, at, n) == be(b, at, (n - 1) as nat) * 256 + b[at + n - 1] as nat);
        assert(be(b, at, (n - 1) as nat) * 256 + 256 <= pow256((n - 1) as nat) * 256) by (nonlinear_arith)
            requires
                be(b, at, (n - 1) as nat) + 1 <= pow256((n - 1) as nat),
        ;
    }
}

/// Two's-complement reading of an unsigned value of `bits` bits.
pub open spec fn signed(v: nat, bits: nat) -> int {
    if v >= crate::packing::pow2((bits - 1) as nat) {
        v - crate::packing::pow2(bits)
    } else {
        v as int
    }
}

/// Where a u16-length-prefixed string at `pos` ends, or why it cannot be read.
pub open spec fn string_end(b: Seq<u8>, pos: int) -> Result<int, NbtError> {
    let n = be(b, pos, 2) as int;
    if pos + 2 > b.len() || pos + 2 + n > b.len() {
        Err(NbtError::Truncated)
    } else if mutf8_from(b.subrange(pos + 2, pos + 2 + n), 0) is None {
        Err(NbtError::InvalidUtf8)
    } else {
        Ok(pos + 2 + n)
    }
}

/// Where a payload of type `ty` at `pos` ends when nesting may go `depth` levels
/// deeper, or the error that decoding it meets first.
pub open spec fn payload_end(b: Seq<u8>, pos: int, ty: u8, depth: nat) -> Result<int, NbtError>
    decreases depth, 1nat, 0nat,
{
    if ty == 0 || ty > 12 {
        Err(NbtError::UnknownTagId(ty))
    } else if (ty == 9 || ty == 10) && depth == 0 {
        Err(NbtError::DepthExceeded)
    } else if ty == 1 || ty == 2 || ty == 3 || ty == 4 || ty == 5 || ty == 6 {
        let w: int = if ty == 1 { 1 } else if ty == 2 { 2 } else if ty == 3 || ty == 5 { 4 } else { 8 };
        if pos + w > b.len() {
            Err(NbtError::Truncated)
        } else {
            Ok(pos + w)
        }
    } else if ty == 8 {
        string_end(b, pos)
    } else if ty == 10 {
        body_end(b, pos, (depth - 1) as nat)
    } else if ty == 9 {
        if pos + 5 > b.len() {
            Err(NbtError::Truncated)
        } else {
            let n = signed(be(b, pos + 1, 4), 32);
            if n <= 0 {
                Ok(pos + 5)
            } else if b[pos] == 0 || b[pos] > 12 {
                Err(NbtError::UnknownTagId(b[pos]))
            } else {
                list_end(b, pos + 5, b[pos], n as nat, (depth - 1) as nat)
            }
        }
    } else if pos + 4 > b.len() {
        Err(NbtError::Truncated)
    } else {
        let n = signed(be(b, pos, 4), 32);
        let w: int = if ty == 7 { 1 } else if ty == 11 { 4 } else { 8 };
        if n < 0 {
            Err(NbtError::NegativeLength)
        } else if pos + 4 + w * n > b.len() {
            Err(NbtError::Truncated)
        } else {
            Ok(pos + 4 + w * n)
        }
    }
}

/// Where `k` list elements of type `elem` starting at `pos` end.
pub open spec fn list_end(b: Seq<u8>, pos: int, elem: u8, k: nat, depth: nat) -> Result<int, NbtError>
    decreases depth, 2nat, k,
{
    if k == 0 {
        Ok(pos)
    } else {
        match payload_end(b, pos, elem, depth) {
            Ok(q) => list_end(b, q, elem, (k - 1) as nat, depth),
            Err(e) => Err(e),
        }
    }
}

/// Where the named tags of a compound body starting at `pos` end, its End tag
/// included.
pub open spec fn body_end(b: Seq<u8>, pos: int, depth: nat) -> Result<int, NbtError>
    decreases depth, 3nat, b.len() - pos,
{
    if pos < 0 || pos >= b.len() {
        Err(NbtError::Truncated)
    } else if b[pos] == 0 {
        Ok(pos + 1)
    } else {
        let ty = b[pos];
        match string_end(b, pos + 1) {
            Err(e) => Err(e),
            Ok(q) => {
                let child = if ty == 10 {
                    if depth == 0 {
                        Err(NbtError::DepthExceeded)
                    } else {
                        body_end(b, q, (depth - 1) as nat)
                    }
                } else {
                    payload_end(b, q, ty, depth)
                };
                match child {
                    Err(e) => Err(e),
                    Ok(q3) => if pos < q3 <= b.len() {
                        body_end(b, q3, depth)
                    } else {
                        Err(NbtError::Truncated)
                    },
                }
            },
        }
    }
}

/// How decoding a whole stream ends: after the root compound, or with an error.
pub open spec fn root_end(b: Seq<u8>) -> Result<int, NbtError> {
    if b.len() == 0 {
        Err(NbtError::Truncated)
    } else if b[0] != 10 {
        Err(NbtError::NotCompound)
    } else {
        match string_end(b, 1) {
            Err(e) => Err(e),
            Ok(q) => body_end(b, q, MAX_DEPTH as nat),
        }
    }
}

/// Where the first `k` named tags of a compound body at `pos` end (the End tag not
/// included), or the error met on the way.
pub open spec fn entry_pos(b: Seq<u8>, pos: int, depth: nat, k: nat) -> Result<int, NbtError>
    decreases k,
{
    if k == 0 {
        Ok(pos)
    } else {
        match entry_pos(b, pos, depth, (k - 1) as nat) {
            Err(e) => Err(e),
            Ok(q) => if q < 0 || q >= b.len() || b[q] == 0 {
                Err(NbtError::Truncated)
            } else {
                match string_end(b, q + 1) {
                    Err(e) => Err(e),
                    Ok(q2) => if b[q] == 10 {
                        if depth == 0 {
                            Err(NbtError::DepthExceeded)
                        } else {
                            body_end(b, q2, (depth - 1) as nat)
                        }
                    } else {
                        payload_end(b, q2, b[q], depth)
                    },
                }
            },
        }
    }
}

/// `t` is the value that a payload of type `ty` at `pos` decodes to.
pub open spec fn payload_tree(b: Seq<u8>, pos: int, ty: u8, depth: nat, t: Tag) -> bool
    decreases t, 2nat, 0nat,
{
    match t {
        Tag::Byte(v) => ty == 1 && v == b[pos] as i8,
        Tag::Short(v) => ty == 2 && v as u16 == be(b, pos, 2),
        Tag::Int(v) => ty == 3 && v == signed(be(b, pos, 4), 32),
        Tag::Long(v) => ty == 4 && v as u64 == be(b, pos, 8),
        Tag::Float(v) => ty == 5 && v == be(b, pos, 4),
        Tag::Double(v) => ty == 6 && v == be(b, pos, 8),
        Tag::Str(s) => ty == 8 && text_is(b.subrange(pos + 2, pos + 2 + be(b, pos, 2)), s@),
        Tag::ByteArray(v) => ty == 7 && v@.len() == signed(be(b, pos, 4), 32) && forall|k: int|
            0 <= k < v@.len() ==> #[trigger] v@[k] == b[pos + 4 + k] as i8,
        Tag::IntArray(v) => ty == 11 && v@.len() == signed(be(b, pos, 4), 32) && forall|k: int|
            0 <= k < v@.len() ==> #[trigger] v@[k] == signed(be(b, pos + 4 + 4 * k, 4), 32),
        Tag::LongArray(v) => ty == 12 && v@.len() == signed(be(b, pos, 4), 32) && forall|k: int|
            0 <= k < v@.len() ==> #[trigger] v@[k] as u64 == be(b, pos + 4 + 8 * k, 8),
        Tag::List(xs) => ty == 9 && depth > 0 && if signed(be(b, pos + 1, 4), 32) <= 0 {
            xs@.len() == 0
        } else {
            xs@.len() == signed(be(b, pos + 1, 4), 32) && items_tree(
                xs@,
                b,
                pos + 5,
                b[pos],
                (depth - 1) as nat,
                xs@.len(),
            )
        },
        Tag::Compound(c) => ty == 10 && depth > 0 && c.name@ == Seq::<char>::empty() && body_tree(
            c.values@,
            b,
            pos,
            (depth - 1) as nat,
        ),
        Tag::End => false,
    }
}

/// The first `k` of `xs` are the list elements of type `elem` decoded from `pos` on.
pub open spec fn items_tree(xs: Seq<Tag>, b: Seq<u8>, pos: int, elem: u8, depth: nat, k: nat) -> bool
    decreases xs, 1nat, k,
{
    if k == 0 || k > xs.len() {
        k == 0
    } else {
        &&& items_tree(xs, b, pos, elem, depth, (k - 1) as nat)
        &&& list_end(b, pos, elem, (k - 1) as nat, depth) is Ok
        &&& payload_tree(b, list_end(b, pos, elem, (k - 1) as nat, depth)->Ok_0, elem, depth, xs[k - 1])
    }
}

/// The first `k` of `vals` are the named tags of a compound body decoded from `pos` on.
pub open spec fn entries_tree(vals: Seq<(String, Tag)>, b: Seq<u8>, pos: int, depth: nat, k: nat) -> bool
    decreases vals, 1nat, k,
{
    if k == 0 || k > vals.len() {
        k == 0
    } else {
        let q = entry_pos(b, pos, depth, (k - 1) as nat)->Ok_0;
        let q2 = string_end(b, q + 1)->Ok_0;
        &&& entries_tree(vals, b, pos, depth, (k - 1) as nat)
        &&& entry_pos(b, pos, depth, (k - 1) as nat) is Ok
        &&& 0 <= q < b.len() && b[q] != 0
        &&& string_end(b, q + 1) is Ok
        &&& text_is(b.subrange(q + 3, q2), vals[k - 1].0@)
        &&& if b[q] == 10 {
            &&& depth > 0
            &&& vals[k - 1].1 is Compound
            &&& vals[k - 1].1->Compound_0.name@ == vals[k - 1].0@
            &&& body_tree(vals[k - 1].1->Compound_0.values@, b, q2, (depth - 1) as nat)
        } else {
            payload_tree(b, q2, b[q], depth, vals[k - 1].1)
        }
    }
}

/// `vals` are the named tags of the compound body at `pos`, which its End tag closes.
pub open spec fn body_tree(vals: Seq<(String, Tag)>, b: Seq<u8>, pos: int, depth: nat) -> bool
    decreases vals, 2nat, 0nat,
{
    &&& entries_tree(vals, b, pos, depth, vals.len())
    &&& entry_pos(b, pos, depth, vals.len()) is Ok
    &&& 0 <= entry_pos(b, pos, depth, vals.len())->Ok_0 < b.len()
    &&& b[entry_pos(b, pos, depth, vals.len())->Ok_0] == 0
}

/// `c` is the root compound that the stream `b` decodes to.
pub open spec fn root_tree(b: Seq<u8>, c: Compound) -> bool {
    &&& b.len() > 0 && b[0] == 10
    &&& string_end(b, 1) is Ok
    &&& text_is(b.subrange(3, string_end(b, 1)->Ok_0), c.name@)
    &&& body_tree(c.values@, b, string_end(b, 1)->Ok_0, MAX_DEPTH as nat)
}

proof fn lemma_list_end_step(b: Seq<u8>, s: int, elem: u8, k: nat, depth: nat, p: int, q: int)
    requires
        list_end(b, s, elem, k, depth) == Ok::<int, NbtError>(p),
        payload_end(b, p, elem, depth) == Ok::<int, NbtError>(q),
    ensures
        list_end(b, s, elem, k + 1, depth) == Ok::<int, NbtError>(q),
    decreases k,
{
    if k > 0 {
        assert(payload_end(b, s, elem, depth) is Ok);
        let s1 = payload_end(b, s, elem, depth)->Ok_0;
        assert(list_end(b, s1, elem, (k - 1) as nat, depth) == Ok::<int, NbtError>(p));
        lemma_list_end_step(b, s1, elem, (k - 1) as nat, depth, p, q);
        assert(list_end(b, s, elem, k + 1, depth) == list_end(b, s1, elem, k, depth));
    } else {
        assert(p == s);
        assert(list_end(b, q, elem, 0, depth) == Ok::<int, NbtError>(q));
        assert(list_end(b, s, elem, 1, depth) == list_end(b, q, elem, 0, depth));
    }
}

proof fn lemma_items_prefix(x1: Seq<Tag>, x2: Seq<Tag>, b: Seq<u8>, pos: int, elem: u8, depth: nat, k: nat)
    requires
        k <= x1.len(),
        k <= x2.len(),
        forall|j: int| 0 <= j < k ==> x1[j] == x2[j],
    ensures
        items_tree(x1, b, pos, elem, depth, k) == items_tree(x2, b, pos, elem, depth, k),
    decreases k,
{
    if k > 0 {
        lemma_items_prefix(x1, x2, b, pos, elem, depth, (k - 1) as nat);
    }
}

proof fn lemma_entries_prefix(
    v1: Seq<(String, Tag)>,
    v2: Seq<(String, Tag)>,
    b: Seq<u8>,
    pos: int,
    depth: nat,
    k: nat,
)
    requires
        k <= v1.len(),
        k <= v2.len(),
        forall|j: int| 0 <= j < k ==> v1[j] == v2[j],
    ensures
        entries_tree(v1, b, pos, depth, k) == entries_tree(v2, b, pos, depth, k),
    decreases k,
{
    if k > 0 {
        lemma_entries_prefix(v1, v2, b, pos, depth, (k - 1) as nat);
    }
}

/// Reads a u16-length-prefixed string at `pos`.
pub fn read_string(b: &Vec<u8>, pos: usize) -> (r: Result<(String, usize), NbtError>)
    ensures
        r matches Ok((s, p)) ==> p == pos + 2 + be(b@, pos as int, 2) && p <= b@.len()
            && text_is(b@.subrange(pos + 2, p as int), s@),
        pos + 2 > b@.len() || pos + 2 + be(b@, pos as int, 2) > b@.len() ==> r
            == Err::<(String, usize), NbtError>(NbtError::Truncated),
        r is Err ==> r == Err::<(String, usize), NbtError>(NbtError::Truncated) || r
            == Err::<(String, usize), NbtError>(NbtError::InvalidUtf8),
        r matches Ok((_, p)) ==> string_end(b@, pos as int) == Ok::<int, NbtError>(p as int),
        r matches Err(e) ==> string_end(b@, pos as int) == Err::<int, NbtError>(e),
        pos + 2 <= b@.len() && pos + 2 + be(b@, pos as int, 2) <= b@.len() ==> (r is Ok <==> mutf8_from(b@.subrange(pos + 2, pos + 2 + be(b@, pos as int, 2)), 0) is Some),
{
    let (n, p) = read_be(b, pos, 2)?;
    proof {
        lemma_be_bound(b@, pos as int, 2);
        reveal_with_fuel(pow256, 3);
    }
    let n = n as usize;
    if n > b.len() - p {
        return Err(NbtError::Truncated);
    }
    let mut bytes: Vec<u8> = Vec::new();
    let mut k: usize = 0;
    while k < n
        invariant
            k <= n,
            p + n <= b@.len() <= usize::MAX,
            bytes@ == b@.subrange(p as int, p + k),
        decreases n - k,
    {
        bytes.push(b[p + k]);
        k = k + 1;
        assert(bytes@ =~= b@.subrange(p as int, p + k));
    }
    match decode_mutf8(&bytes) {
        Some(s) => Ok((s, p + n)),
        None => Err(NbtError::InvalidUtf8),
    }
}

/// Reads an i32 element count at `pos`; a negative count is an error.
pub(crate) fn read_count(b: &Vec<u8>, pos: usize) -> (r: Result<(i32, usize), NbtError>)
    ensures
        pos + 4 <= b@.len() <==> r is Ok,
        r is Err ==> r == Err::<(i32, usize), NbtError>(NbtError::Truncated),
        r matches Ok((c, p)) ==> p == pos + 4 && c as int == signed(be(b@, pos as int, 4), 32)
            && p <= b@.len(),
{
    let (v, p) = read_be(b, pos, 4)?;
    proof {
        lemma_be_bound(b@, pos as int, 4);
        reveal_with_fuel(pow256, 5);
        reveal_with_fuel(crate::packing::pow2, 33);
    }
    let c = if v >= 0x8000_0000 {
        (v as i64 - 0x1_0000_0000) as i32
    } else {
        v as i32
    };
    Ok((c, p))
}

/// Decodes the payload of a tag of type `ty` at `pos`, following at most `depth`
/// levels of nested compounds and lists.
pub fn read_payload(b: &Vec<u8>, pos: usize, ty: u8, depth: usize) -> (r: Result<(Tag, usize), NbtError>)
    ensures
        ty == 0 || ty > 12 ==> r == Err::<(Tag, usize), NbtError>(NbtError::UnknownTagId(ty)),
        (ty == 9 || ty == 10) && depth == 0 ==> r == Err::<(Tag, usize), NbtError>(
            NbtError::DepthExceeded,
        ),
        r matches Ok((_, p)) ==> pos <= p <= b@.len(),
        ty == 1 ==> (r is Ok <==> pos < b@.len()),
        ty == 1 && r is Ok ==> r == Ok::<(Tag, usize), NbtError>(
            (Tag::Byte(b@[pos as int] as i8), (pos + 1) as usize),
        ),
        ty == 3 ==> (r is Ok <==> pos + 4 <= b@.len()),
        ty == 2 ==> (r is Ok <==> pos + 2 <= b@.len()),
        ty == 2 && r is Ok ==> r.unwrap().1 == pos + 2 && r.unwrap().0 == Tag::Short(
            r.unwrap().0->Short_0,
        ) && r.unwrap().0->Short_0 as u16 == be(b@, pos as int, 2),
        ty == 4 ==> (r is Ok <==> pos + 8 <= b@.len()),
        ty == 4 && r is Ok ==> r.unwrap().1 == pos + 8 && r.unwrap().0 == Tag::Long(
            r.unwrap().0->Long_0,
        ) && r.unwrap().0->Long_0 as u64 == be(b@, pos as int, 8),
        ty == 5 ==> (r is Ok <==> pos + 4 <= b@.len()),
        ty == 5 && r is Ok ==> r.unwrap().1 == pos + 4 && r.unwrap().0 == Tag::Float(
            r.unwrap().0->Float_0,
        ) && r.unwrap().0->Float_0 == be(b@, pos as int, 4),
        ty == 6 ==> (r is Ok <==> pos + 8 <= b@.len()),
        ty == 6 && r is Ok ==> r.unwrap().1 == pos + 8 && r.unwrap().0 == Tag::Double(
            r.unwrap().0->Double_0,
        ) && r.unwrap().0->Double_0 == be(b@, pos as int, 8),
        r matches Ok((_, p)) ==> payload_end(b@, pos as int, ty, depth as nat) == Ok::<int, NbtError>(p as int),
        r matches Ok((t, _)) ==> payload_tree(b@, pos as int, ty, depth as nat, t),
        r matches Err(e) ==> payload_end(b@, pos as int, ty, depth as nat) == Err::<int, NbtError>(e),
        ty == 8 && r is Ok ==> r.unwrap().0 == Tag::Str(r.unwrap().0->Str_0) && r.unwrap().1 == pos
            + 2 + be(b@, pos as int, 2) && text_is(b@.subrange(pos + 2, r.unwrap().1 as int), r.unwrap().0->Str_0@),
        ty == 3 && r is Ok ==> r.unwrap().1 == pos + 4 && r.unwrap().0 == Tag::Int(
            r.unwrap().0->Int_0,
        ) && r.unwrap().0->Int_0 == signed(be(b@, pos as int, 4), 32),
    decreases depth, 0nat,
{
    if ty == 0 || ty > 12 {
        return Err(NbtError::UnknownTagId(ty));
    }
    if (ty == 9 || ty == 10) && depth == 0 {
        return Err(NbtError::DepthExceeded);
    }
    if ty == 1 {
        let (v, p) = read_u8(b, pos)?;
        return Ok((Tag::Byte(v as i8), p));
    } else if ty == 2 {
        let (v, p) = read_be(b, pos, 2)?;
        proof {
            lemma_be_bound(b@, pos as int, 2);
            reveal_with_fuel(pow256, 3);
            assert(((v as u16) as i16) as u16 == v) by (bit_vector)
                requires
                    v < 65536u64,
            ;
        }
        return Ok((Tag::Short(v as u16 as i16), p));
    } else if ty == 3 {
        let (v, p) = read_count(b, pos)?;
        return Ok((Tag::Int(v), p));
    } else if ty == 4 {
        let (v, p) = read_be(b, pos, 8)?;
        assert((v as i64) as u64 == v) by (bit_vector);
        return Ok((Tag::Long(v as i64), p));
    } else if ty == 5 {
        let (v, p) = read_be(b, pos, 4)?;
        proof {
            lemma_be_bound(b@, pos as int, 4);
            reveal_with_fuel(pow256, 5);
        }
        return Ok((Tag::Float(v as u32), p));
    } else if ty == 6 {
        let (v, p) = read_be(b, pos, 8)?;
        return Ok((Tag::Double(v), p));
    } else if ty == 8 {
        let (s, p) = read_string(b, pos)?;
        return Ok((Tag::Str(s), p));
    } else if ty == 10 {
        let (c, p) = read_compound_body(b, pos, String::new(), depth - 1)?;
        return Ok((Tag::Compound(c), p));
    }
    let (n, mut p) = if ty == 9 {
        let (_, p1) = read_u8(b, pos)?;
        let (n, p2) = read_count(b, p1)?;
        if n <= 0 {
            return Ok((Tag::List(Vec::new()), p2));
        }
        (n, p2)
    } else {
        let (n, p1) = read_count(b, pos)?;
        if n < 0 {
            return Err(NbtError::NegativeLength);
        }
        (n, p1)
    };
    let count = n as usize;
    let ghost p0 = p as int;
    if ty == 7 {
        if count > b.len() - p {
            return Err(NbtError::Truncated);
        }
        let mut out: Vec<i8> = Vec::new();
        let mut k: usize = 0;
        while k < count
            invariant
                k <= count,
                p + count <= b@.len() <= usize::MAX,
                ty == 7,
                p == pos + 4,
                count as int == signed(be(b@, pos as int, 4), 32),
                out@.len() == k,
                forall|j: int| 0 <= j < k ==> #[trigger] out@[j] == b@[pos + 4 + j] as i8,
            decreases count - k,
        {
            out.push(b[p + k] as i8);
            k = k + 1;
        }
        return Ok((Tag::ByteArray(out), p + count));
    } else if ty == 11 {
        let mut out: Vec<i32> = Vec::new();
        let mut k: usize = 0;
        while k < count
            invariant
                pos <= p <= b@.len(),
                ty == 11,
                k <= count,
                p == p0 + 4 * k,
                p0 == pos + 4,
                count as int == signed(be(b@, pos as int, 4), 32),
                out@.len() == k,
                forall|j: int| 0 <= j < k ==> #[trigger] out@[j] == signed(be(b@, pos + 4 + 4 * j, 4), 32),
                p0 + 4 * count > b@.len() ==> payload_end(b@, pos as int, ty, depth as nat) == Err::<int, NbtError>(NbtError::Truncated),
                p0 + 4 * count <= b@.len() ==> payload_end(b@, pos as int, ty, depth as nat) == Ok::<int, NbtError>(p0 + 4 * count),
            decreases count - k,
        {
            let (v, q) = read_count(b, p)?;
            out.push(v);
            p = q;
            k = k + 1;
        }
        return Ok((Tag::IntArray(out), p));
    } else if ty == 12 {
        let mut out: Vec<i64> = Vec::new();
        let mut k: usize = 0;
        while k < count
            invariant
                pos <= p <= b@.len(),
                ty == 12,
                k <= count,
                p == p0 + 8 * k,
                p0 == pos + 4,
                count as int == signed(be(b@, pos as int, 4), 32),
                out@.len() == k,
                forall|j: int| 0 <= j < k ==> #[trigger] out@[j] as u64 == be(b@, pos + 4 + 8 * j, 8),
                p0 + 8 * count > b@.len() ==> payload_end(b@, pos as int, ty, depth as nat) == Err::<int, NbtError>(NbtError::Truncated),
                p0 + 8 * count <= b@.len() ==> payload_end(b@, pos as int, ty, depth as nat) == Ok::<int, NbtError>(p0 + 8 * count),
            decreases count - k,
        {
            let (v, q) = read_be(b, p, 8)?;
            assert((v as i64) as u64 == v) by (bit_vector);
            out.push(v as i64);
            p = q;
            k = k + 1;
        }
        return Ok((Tag::LongArray(out), p));
    }
    // A list: `count` unnamed payloads of the element type.
    let elem = b[pos];
    if elem == 0 || elem > 12 {
        return Err(NbtError::UnknownTagId(elem));
    }
    let mut out: Vec<Tag> = Vec::new();
    let mut k: usize = 0;
    while k < count
        invariant
            pos <= p <= b@.len(),
            depth >= 1,
            ty == 9,
            k <= count,
            count as int == signed(be(b@, pos + 1, 4), 32),
            count > 0,
            elem == b@[pos as int],
            p0 == pos + 5,
            out@.len() == k,
            list_end(b@, pos + 5, elem, k as nat, (depth - 1) as nat) == Ok::<int, NbtError>(p as int),
            items_tree(out@, b@, pos + 5, elem, (depth - 1) as nat, k as nat),
            payload_end(b@, pos as int, ty, depth as nat) == list_end(
                b@,
                p as int,
                elem,
                (count - k) as nat,
                (depth - 1) as nat,
            ),
        decreases count - k,
    {
        let (t, q) = read_payload(b, p, elem, depth - 1)?;
        let ghost before = out@;
        out.push(t);
        proof {
            lemma_list_end_step(b@, pos + 5, elem, k as nat, (depth - 1) as nat, p as int, q as int);
            lemma_items_prefix(before, out@, b@, pos + 5, elem, (depth - 1) as nat, k as nat);
        }
        p = q;
        k = k + 1;
    }
    Ok((Tag::List(out), p))
}

/// Decodes named tags at `pos` into a compound called `name`, up to its End tag.
pub fn read_compound_body(b: &Vec<u8>, pos: usize, name: String, depth: usize) -> (r: Result<(Compound, usize), NbtError>)
    ensures
        r matches Ok((c, p)) ==> pos < p <= b@.len() && c.name@ == name@,
        r matches Ok((c, _)) ==> body_tree(c.values@, b@, pos as int, depth as nat),
        r matches Ok((_, p)) ==> body_end(b@, pos as int, depth as nat) == Ok::<int, NbtError>(p as int),
        r matches Err(e) ==> body_end(b@, pos as int, depth as nat) == Err::<int, NbtError>(e),
    decreases depth, 1nat,
{
    if pos >= b.len() {
        return Err(NbtError::Truncated);
    }
    let mut values: Vec<(String, Tag)> = Vec::new();
    let mut p = pos;
    loop
        invariant
            pos <= p <= b@.len(),
            body_end(b@, pos as int, depth as nat) == body_end(b@, p as int, depth as nat),
            entry_pos(b@, pos as int, depth as nat, values@.len()) == Ok::<int, NbtError>(p as int),
            entries_tree(values@, b@, pos as int, depth as nat, values@.len()),
        decreases b@.len() - p,
    {
        let (ty, q) = read_u8(b, p)?;
        if ty == 0 {
            return Ok((Compound { name, values }, q));
        }
        let (key, q2) = read_string(b, q)?;
        let (t, q3) = match ty {
            10 => {
                if depth == 0 {
                    return Err(NbtError::DepthExceeded);
                }
                let (c, q3) = read_compound_body(b, q2, key.clone(), depth - 1)?;
                (Tag::Compound(c), q3)
            },
            _ => read_payload(b, q2, ty, depth)?,
        };
        let ghost before = values@;
        values.push((key, t));
        proof {
            lemma_entries_prefix(before, values@, b@, pos as int, depth as nat, before.len());
        }
        p = q3;
    }
}

/// Decodes the root compound at the start of `b`. Bytes after its End tag are ignored.
pub fn decode_root(b: &Vec<u8>) -> (r: Result<Compound, NbtError>)
    ensures
        b@.len() == 0 ==> r == Err::<Compound, NbtError>(NbtError::Truncated),
        b@.len() > 0 && b@[0] != 10 ==> r == Err::<Compound, NbtError>(NbtError::NotCompound),
        r is Ok <==> root_end(b@) is Ok,
        r matches Err(e) ==> root_end(b@) == Err::<int, NbtError>(e),
        r matches Ok(c) ==> root_tree(b@, c),
        r matches Ok(c) ==> b@[0] == 10 && exists|p: int|
            #![trigger b@.subrange(3, p)]
            3 <= p <= b@.len() && p == 3 + be(b@, 1, 2) && text_is(b@.subrange(3, p), c.name@),
{
    let (ty, p) = read_u8(b, 0)?;
    if ty != 10 {
        return Err(NbtError::NotCompound);
    }
    let (name, q) = read_string(b, p)?;
    let (c, _) = read_compound_body(b, q, name, MAX_DEPTH)?;
    Ok(c)
}

} // verus!
