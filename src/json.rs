use vstd::prelude::*;
use vstd::string::*;
use crate::tag::{Compound, Tag};
use crate::mutf8::string_of;

verus! {

broadcast use vstd::std_specs::vec::group_vec_axioms;

/// Decimal digits of `n`.
pub open spec fn digits(n: nat) -> Seq<char>
    decreases n,
{
    if n < 10 {
        seq![digit(n)]
    } else {
        digits(n / 10).push(digit(n % 10))
    }
}

pub open spec fn digit(d: nat) -> char {
    if d == 0 { '0' } else if d == 1 { '1' } else if d == 2 { '2' } else if d == 3 { '3' }
    else if d == 4 { '4' } else if d == 5 { '5' } else if d == 6 { '6' } else if d == 7 { '7' }
    else if d == 8 { '8' } else if d == 9 { '9' } else if d == 10 { 'a' } else if d == 11 { 'b' }
    else if d == 12 { 'c' } else if d == 13 { 'd' } else if d == 14 { 'e' } else { 'f' }
}

/// JSON text of an integer.
pub open spec fn int_text(v: int) -> Seq<char> {
    if v < 0 {
        seq!['-'] + digits((-v) as nat)
    } else {
        digits(v as nat)
    }
}

/// JSON text of one character inside a string.
pub open spec fn esc_char(c: char) -> Seq<char> {
    if c == '"' {
        seq!['\\', '"']
    } else if c == '\\' {
        seq!['\\', '\\']
    } else if (c as u32) < 32 {
        seq!['\\', 'u', '0', '0', digit((c as u32 / 16) as nat), digit((c as u32 % 16) as nat)]
    } else {
        seq![c]
    }
}

/// Escaped text of the first `n` characters of `s`.
pub open spec fn esc(s: Seq<char>, n: nat) -> Seq<char>
    decreases n,
{
    if n == 0 || n > s.len() {
        Seq::empty()
    } else {
        esc(s, (n - 1) as nat) + esc_char(s[n - 1])
    }
}

/// A JSON string holding `s`.
pub open spec fn str_text(s: Seq<char>) -> Seq<char> {
    seq!['"'] + esc(s, s.len()) + seq!['"']
}

/// The first `n` integers of `v`, comma-separated.
pub open spec fn ints_text(v: Seq<int>, n: nat) -> Seq<char>
    decreases n,
{
    if n == 0 || n > v.len() {
        Seq::empty()
    } else {
        ints_text(v, (n - 1) as nat) + sep(n) + int_text(v[n - 1])
    }
}

/// The separator before the `n`-th item of a list (1-based).
pub open spec fn sep(n: nat) -> Seq<char> {
    if n > 1 {
        seq![',']
    } else {
        Seq::empty()
    }
}

pub open spec fn arr_text(v: Seq<int>) -> Seq<char> {
    seq!['['] + ints_text(v, v.len()) + seq![']']
}

/// JSON text of a compound: an object keyed by child names. `None` when the tree
/// holds a Float, a Double or an End, which have no integer or text form.
pub open spec fn compound_json(c: Compound) -> Option<Seq<char>>
    decreases c, 2nat, 0nat,
{
    match entries_json(c, c.values@.len()) {
        Some(e) => Some(seq!['{'] + e + seq!['}']),
        None => None,
    }
}

/// The first `n` children of `c` as `"name":value`, comma-separated.
pub open spec fn entries_json(c: Compound, n: nat) -> Option<Seq<char>>
    decreases c, 1nat, n,
{
    if n == 0 || n > c.values@.len() {
        Some(Seq::empty())
    } else {
        match (entries_json(c, (n - 1) as nat), tag_json(c.values@[n - 1].1)) {
            (Some(a), Some(x)) => Some(a + sep(n) + str_text(c.values@[n - 1].0@) + seq![':'] + x),
            _ => None,
        }
    }
}

/// The JSON text of a value.
pub open spec fn tag_json(t: Tag) -> Option<Seq<char>>
    decreases t, 2nat, 0nat,
{
    match t {
        Tag::Byte(v) => Some(int_text(v as int)),
        Tag::Short(v) => Some(int_text(v as int)),
        Tag::Int(v) => Some(int_text(v as int)),
        Tag::Long(v) => Some(int_text(v as int)),
        Tag::ByteArray(v) => Some(arr_text(v@.map_values(|x: i8| x as int))),
        Tag::IntArray(v) => Some(arr_text(v@.map_values(|x: i32| x as int))),
        Tag::LongArray(v) => Some(arr_text(v@.map_values(|x: i64| x as int))),
        Tag::Str(s) => Some(str_text(s@)),
        Tag::List(xs) => match items_json(t, xs@.len()) {
            Some(e) => Some(seq!['['] + e + seq![']']),
            None => None,
        },
        Tag::Compound(c) => compound_json(c),
        _ => None,
    }
}

/// The first `n` elements of list `t`, comma-separated.
pub open spec fn items_json(t: Tag, n: nat) -> Option<Seq<char>>
    decreases t, 1nat, n,
{
    match t {
        Tag::List(xs) => if n == 0 || n > xs@.len() {
            Some(Seq::empty())
        } else {
            match (items_json(t, (n - 1) as nat), tag_json(xs@[n - 1])) {
                (Some(a), Some(x)) => Some(a + sep(n) + x),
                _ => None,
            }
        },
        _ => None,
    }
}

fn digit_char(d: u64) -> (r: char)
    requires
        d < 16,
    ensures
        r == digit(d as nat),
{
    if d == 0 { '0' } else if d == 1 { '1' } else if d == 2 { '2' } else if d == 3 { '3' }
    else if d == 4 { '4' } else if d == 5 { '5' } else if d == 6 { '6' } else if d == 7 { '7' }
    else if d == 8 { '8' } else if d == 9 { '9' } else if d == 10 { 'a' } else if d == 11 { 'b' }
    else if d == 12 { 'c' } else if d == 13 { 'd' } else if d == 14 { 'e' } else { 'f' }
}

fn push_digits(out: &mut Vec<char>, n: u64)
    ensures
        final(out)@ == old(out)@ + digits(n as nat),
    decreases n,
{
    if n >= 10 {
        push_digits(out, n / 10);
    }
    out.push(digit_char(n % 10));
    assert(final(out)@ =~= old(out)@ + digits(n as nat)) by {
        if n >= 10 {
            assert(digits(n as nat) == digits((n / 10) as nat).push(digit((n % 10) as nat)));
        }
    }
}

fn push_int(out: &mut Vec<char>, v: i64)
    ensures
        final(out)@ == old(out)@ + int_text(v as int),
{
    if v < 0 {
        out.push('-');
        let n: u64 = (0i128 - v as i128) as u64;
        push_digits(out, n);
        assert(final(out)@ =~= old(out)@ + int_text(v as int));
    } else {
        push_digits(out, v as u64);
    }
}

fn push_str(out: &mut Vec<char>, s: &String)
    ensures
        final(out)@ == old(out)@ + str_text(s@),
{
    let ghost start = out@;
    out.push('"');
    let t = s.as_str();
    let n = t.unicode_len();
    let mut i: usize = 0;
    while i < n
        invariant
            i <= n,
            n == s@.len(),
            t@ == s@,
            out@ == start + seq!['"'] + esc(s@, i as nat),
        decreases n - i,
    {
        let c = t.get_char(i);
        if c == '"' {
            out.push('\\');
            out.push('"');
        } else if c == '\\' {
            out.push('\\');
            out.push('\\');
        } else if (c as u32) < 32 {
            out.push('\\');
            out.push('u');
            out.push('0');
            out.push('0');
            out.push(digit_char((c as u32 / 16) as u64));
            out.push(digit_char((c as u32 % 16) as u64));
        } else {
            out.push(c);
        }
        i = i + 1;
        assert(out@ =~= start + seq!['"'] + esc(s@, i as nat));
    }
    out.push('"');
    assert(out@ =~= start + str_text(s@));
}

fn push_ints(out: &mut Vec<char>, v: &Vec<i64>)
    ensures
        final(out)@ == old(out)@ + arr_text(v@.map_values(|x: i64| x as int)),
{
    let ghost start = out@;
    let ghost w = v@.map_values(|x: i64| x as int);
    out.push('[');
    let mut i: usize = 0;
    while i < v.len()
        invariant
            i <= v@.len(),
            w == v@.map_values(|x: i64| x as int),
            out@ == start + seq!['['] + ints_text(w, i as nat),
        decreases v@.len() - i,
    {
        if i > 0 {
            out.push(',');
        }
        push_int(out, v[i]);
        i = i + 1;
        assert(out@ =~= start + seq!['['] + ints_text(w, i as nat));
    }
    out.push(']');
    assert(out@ =~= start + arr_text(w));
}

fn widen_bytes(v: &Vec<i8>) -> (r: Vec<i64>)
    ensures
        r@.map_values(|x: i64| x as int) == v@.map_values(|x: i8| x as int),
{
    let mut out: Vec<i64> = Vec::new();
    let mut i: usize = 0;
    while i < v.len()
        invariant
            i <= v@.len(),
            out@.len() == i,
            forall|k: int| 0 <= k < i ==> #[trigger] out@[k] as int == v@[k] as int,
        decreases v@.len() - i,
    {
        out.push(v[i] as i64);
        i = i + 1;
    }
    assert(out@.map_values(|x: i64| x as int) =~= v@.map_values(|x: i8| x as int));
    out
}

fn widen_ints(v: &Vec<i32>) -> (r: Vec<i64>)
    ensures
        r@.map_values(|x: i64| x as int) == v@.map_values(|x: i32| x as int),
{
    let mut out: Vec<i64> = Vec::new();
    let mut i: usize = 0;
    while i < v.len()
        invariant
            i <= v@.len(),
            out@.len() == i,
            forall|k: int| 0 <= k < i ==> #[trigger] out@[k] as int == v@[k] as int,
        decreases v@.len() - i,
    {
        out.push(v[i] as i64);
        i = i + 1;
    }
    assert(out@.map_values(|x: i64| x as int) =~= v@.map_values(|x: i32| x as int));
    out
}

fn write_compound(c: &Compound, out: &mut Vec<char>) -> (r: bool)
    ensures
        r == compound_json(*c) is Some,
        r ==> final(out)@ == old(out)@ + compound_json(*c).unwrap(),
    decreases *c, 2nat, 0nat,
{
    let ghost start = out@;
    out.push('{');
    let mut i: usize = 0;
    while i < c.values.len()
        invariant
            i <= c.values@.len(),
            entries_json(*c, i as nat) is Some,
            out@ == start + seq!['{'] + entries_json(*c, i as nat).unwrap(),
        decreases c.values@.len() - i,
    {
        if i > 0 {
            out.push(',');
        }
        push_str(out, &c.values[i].0);
        out.push(':');
        if !write_tag(&c.values[i].1, out) {
            proof {
                lemma_entries_none(*c, (i + 1) as nat, c.values@.len());
            }
            return false;
        }
        i = i + 1;
        assert(out@ =~= start + seq!['{'] + entries_json(*c, i as nat).unwrap());
    }
    out.push('}');
    assert(out@ =~= start + compound_json(*c).unwrap());
    true
}

proof fn lemma_entries_none(c: Compound, m: nat, n: nat)
    requires
        m <= n <= c.values@.len(),
        entries_json(c, m) is None,
    ensures
        entries_json(c, n) is None,
    decreases n - m,
{
    if m < n {
        lemma_entries_none(c, m, (n - 1) as nat);
    }
}

proof fn lemma_items_none(t: Tag, m: nat, n: nat)
    requires
        t is List,
        m <= n <= t->List_0@.len(),
        items_json(t, m) is None,
    ensures
        items_json(t, n) is None,
    decreases n - m,
{
    if m < n {
        lemma_items_none(t, m, (n - 1) as nat);
    }
}

fn write_tag(t: &Tag, out: &mut Vec<char>) -> (r: bool)
    ensures
        r == tag_json(*t) is Some,
        r ==> final(out)@ == old(out)@ + tag_json(*t).unwrap(),
    decreases *t, 2nat, 0nat,
{
    match t {
        Tag::Byte(v) => {
            push_int(out, *v as i64);
            true
        },
        Tag::Short(v) => {
            push_int(out, *v as i64);
            true
        },
        Tag::Int(v) => {
            push_int(out, *v as i64);
            true
        },
        Tag::Long(v) => {
            push_int(out, *v);
            true
        },
        Tag::ByteArray(v) => {
            let w = widen_bytes(v);
            push_ints(out, &w);
            true
        },
        Tag::IntArray(v) => {
            let w = widen_ints(v);
            push_ints(out, &w);
            true
        },
        Tag::LongArray(v) => {
            push_ints(out, v);
            true
        },
        Tag::Str(s) => {
            push_str(out, s);
            true
        },
        Tag::Compound(c) => write_compound(c, out),
        Tag::List(xs) => {
            let ghost start = out@;
            out.push('[');
            let mut i: usize = 0;
            while i < xs.len()
                invariant
                    i <= xs@.len(),
                    *t == Tag::List(*xs),
                    items_json(*t, i as nat) is Some,
                    out@ == start + seq!['['] + items_json(*t, i as nat).unwrap(),
                decreases xs@.len() - i,
            {
                if i > 0 {
                    out.push(',');
                }
                if !write_tag(&xs[i], out) {
                    proof {
                        lemma_items_none(*t, (i + 1) as nat, xs@.len());
                    }
                    return false;
                }
                i = i + 1;
                assert(out@ =~= start + seq!['['] + items_json(*t, i as nat).unwrap());
            }
            out.push(']');
            assert(out@ =~= start + tag_json(*t).unwrap());
            true
        },
        _ => false,
    }
}

/// The JSON text of a root compound: the compound is the top-level object, its
/// children keyed by name. `None` when the tree holds a Float, a Double or an End.
pub fn to_json(c: &Compound) -> (r: Option<String>)
    ensures
        r is Some <==> compound_json(*c) is Some,
        r matches Some(s) ==> s@ == compound_json(*c).unwrap(),
{
    let mut out: Vec<char> = Vec::new();
    if write_compound(c, &mut out) {
        assert(out@ =~= compound_json(*c).unwrap());
        Some(string_of(out))
    } else {
        None
    }
}

} // verus!
