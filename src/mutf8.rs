use vstd::prelude::*;

verus! {

/// `y` is a continuation byte (10xxxxxx).
pub open spec fn cont(y: u8) -> bool {
    y / 64 == 2
}

/// The UTF-16 code unit encoded at `i` and its length in bytes. NUL is written as
/// the two bytes C0 80, never as a single zero byte.
pub open spec fn unit_at(b: Seq<u8>, i: int) -> Option<(u32, int)> {
    if i < 0 || i >= b.len() {
        None
    } else {
        let x = b[i];
        if 0 < x < 128 {
            Some((x as u32, 1))
        } else if x / 32 == 6 && i + 1 < b.len() && cont(b[i + 1]) {
            Some((((x % 32) as int * 64 + (b[i + 1] % 64) as int) as u32, 2))
        } else if x / 16 == 14 && i + 2 < b.len() && cont(b[i + 1]) && cont(b[i + 2]) {
            Some((((x % 16) as int * 4096 + (b[i + 1] % 64) as int * 64 + (b[i + 2] % 64) as int) as u32, 3))
        } else {
            None
        }
    }
}

pub open spec fn high(u: u32) -> bool {
    0xD800 <= u < 0xDC00
}

pub open spec fn low(u: u32) -> bool {
    0xDC00 <= u < 0xE000
}

/// The scalar values that the modified UTF-8 bytes of `b` from `i` on decode to:
/// code units as above, a high surrogate followed by a low one making one scalar.
/// `None` for a malformed sequence or an unpaired surrogate.
pub open spec fn mutf8_from(b: Seq<u8>, i: int) -> Option<Seq<u32>>
    decreases b.len() - i,
{
    if i < 0 || i >= b.len() {
        if i == b.len() { Some(Seq::empty()) } else { None }
    } else {
        match unit_at(b, i) {
            None => None,
            Some((u, l)) => if l < 1 || i + l > b.len() {
                None
            } else if high(u) {
                match unit_at(b, i + l) {
                    Some((u2, l2)) => if low(u2) && l2 >= 1 && i + l + l2 <= b.len() {
                        match mutf8_from(b, i + l + l2) {
                            Some(rest) => Some(
                                seq![(0x10000 + (u - 0xD800) * 1024 + (u2 - 0xDC00)) as u32] + rest,
                            ),
                            None => None,
                        }
                    } else {
                        None
                    },
                    None => None,
                }
            } else if low(u) {
                None
            } else {
                match mutf8_from(b, i + l) {
                    Some(rest) => Some(seq![u] + rest),
                    None => None,
                }
            },
        }
    }
}

/// `s` is the text that the modified UTF-8 bytes `b` spell.
pub open spec fn text_is(b: Seq<u8>, s: Seq<char>) -> bool {
    mutf8_from(b, 0) == Some(s.map_values(|c: char| c as u32))
}

fn unit_at_exec(b: &Vec<u8>, i: usize) -> (r: Option<(u32, usize)>)
    ensures
        r is None <==> unit_at(b@, i as int) is None,
        r matches Some((u, l)) ==> unit_at(b@, i as int) == Some((u, l as int)),
{
    if i >= b.len() {
        return None;
    }
    let x = b[i];
    if 0 < x && x < 128 {
        Some((x as u32, 1))
    } else if x / 32 == 6 && b.len() - i > 1 && b[i + 1] / 64 == 2 {
        Some(((x % 32) as u32 * 64 + (b[i + 1] % 64) as u32, 2))
    } else if x / 16 == 14 && b.len() - i > 2 && b[i + 1] / 64 == 2 && b[i + 2] / 64 == 2 {
        Some(((x % 16) as u32 * 4096 + (b[i + 1] % 64) as u32 * 64 + (b[i + 2] % 64) as u32, 3))
    } else {
        None
    }
}

/// Relies on `char::from_u32`: a Unicode scalar value is a `char` of that value.
#[verifier::external_body]
fn char_of(u: u32) -> (r: char)
    requires
        u < 0xD800 || 0xE000 <= u <= 0x10FFFF,
    ensures
        r as u32 == u,
{
    char::from_u32(u).unwrap()
}

/// Relies on std's `FromIterator<char>` for `String`: the string of exactly these chars.
#[verifier::external_body]
pub(crate) fn string_of(v: Vec<char>) -> (r: String)
    ensures
        r@ == v@,
{
    v.into_iter().collect()
}

/// Decodes modified UTF-8 bytes to text.
pub fn decode_mutf8(b: &Vec<u8>) -> (r: Option<String>)
    ensures
        r is None <==> mutf8_from(b@, 0) is None,
        r matches Some(s) ==> text_is(b@, s@),
{
    let mut out: Vec<char> = Vec::new();
    let mut i: usize = 0;
    while i < b.len()
        invariant
            i <= b@.len(),
            mutf8_from(b@, 0) == match mutf8_from(b@, i as int) {
                Some(rest) => Some(out@.map_values(|c: char| c as u32) + rest),
                None => None::<Seq<u32>>,
            },
        decreases b@.len() - i,
    {
        let ghost before = out@;
        let (u, l) = match unit_at_exec(b, i) {
            Some(x) => x,
            None => {
                return None;
            },
        };
        if 0xD800 <= u && u < 0xDC00 {
            let (u2, l2) = match unit_at_exec(b, i + l) {
                Some(x) => x,
                None => {
                    return None;
                },
            };
            if !(0xDC00 <= u2 && u2 < 0xE000) {
                return None;
            }
            let v = 0x10000 + (u - 0xD800) * 1024 + (u2 - 0xDC00);
            out.push(char_of(v));
            let ghost bm = before.map_values(|c: char| c as u32);
            proof {
                assert(out@.map_values(|c: char| c as u32) =~= bm.push(v));
                if let Some(rest) = mutf8_from(b@, i + l + l2) {
                    assert(bm.push(v) + rest =~= bm + (seq![v] + rest));
                }
            }
            i = i + l + l2;
        } else if 0xDC00 <= u && u < 0xE000 {
            return None;
        } else {
            out.push(char_of(u));
            let ghost bm = before.map_values(|c: char| c as u32);
            proof {
                assert(out@.map_values(|c: char| c as u32) =~= bm.push(u));
                if let Some(rest) = mutf8_from(b@, i + l) {
                    assert(bm.push(u) + rest =~= bm + (seq![u] + rest));
                }
            }
            i = i + l;
        }
    }
    proof {
        assert(out@.map_values(|c: char| c as u32) + Seq::<u32>::empty() =~= out@.map_values(|c: char| c as u32));
    }
    let s = string_of(out);
    Some(s)
}

} // verus!
