use vstd::prelude::*;
use vstd::string::*;

verus! {

broadcast use vstd::std_specs::vec::group_vec_axioms;

/// One NBT value. Floating-point payloads are kept as their IEEE-754 bit patterns.
pub enum Tag {
    End,
    Byte(i8),
    Short(i16),
    Int(i32),
    Long(i64),
    Float(u32),
    Double(u64),
    ByteArray(Vec<i8>),
    Str(String),
    List(Vec<Tag>),
    Compound(Compound),
    IntArray(Vec<i32>),
    LongArray(Vec<i64>),
}

/// A named compound: its children in wire order, each with its name.
pub struct Compound {
    pub name: String,
    pub values: Vec<(String, Tag)>,
}

/// Compounds named `key` within `c`, itself included, in depth-first preorder.
pub open spec fn found_in(c: Compound, key: Seq<char>) -> Seq<Compound>
    decreases c, 2nat, 0nat,
{
    let own = if c.name@ == key {
        seq![c]
    } else {
        Seq::empty()
    };
    own + found_in_entries(c, key, c.values@.len())
}

/// Matches under the first `n` children of `c`.
pub open spec fn found_in_entries(c: Compound, key: Seq<char>, n: nat) -> Seq<Compound>
    decreases c, 1nat, n,
{
    if n == 0 || n > c.values@.len() {
        Seq::empty()
    } else {
        found_in_entries(c, key, (n - 1) as nat) + found_in_child(c.values@[n - 1].1, key)
    }
}

/// Matches reached from a child value: a compound, or the compounds of a list.
pub open spec fn found_in_child(t: Tag, key: Seq<char>) -> Seq<Compound>
    decreases t, 2nat, 0nat,
{
    match t {
        Tag::Compound(d) => found_in(d, key),
        Tag::List(xs) => found_in_items(t, key, xs@.len()),
        _ => Seq::empty(),
    }
}

/// Matches under the first `n` elements of list `t`: its compounds and, through
/// nested lists, theirs.
pub open spec fn found_in_items(t: Tag, key: Seq<char>, n: nat) -> Seq<Compound>
    decreases t, 1nat, n,
{
    match t {
        Tag::List(xs) => if n == 0 || n > xs@.len() {
            Seq::empty()
        } else {
            let rest = found_in_items(t, key, (n - 1) as nat);
            match xs@[n - 1] {
                Tag::Compound(d) => rest + found_in(d, key),
                Tag::List(_) => rest + found_in_child(xs@[n - 1], key),
                _ => rest,
            }
        },
        _ => Seq::empty(),
    }
}

/// The compounds that a list of references points to.
pub open spec fn targets_of(s: Seq<&Compound>) -> Seq<Compound> {
    s.map_values(|x: &Compound| *x)
}

proof fn lemma_targets_push(s: Seq<&Compound>, x: &Compound)
    ensures
        targets_of(s.push(x)) == targets_of(s).push(*x),
{
    assert(targets_of(s.push(x)) =~= targets_of(s).push(*x));
}

/// Appends to `out` the compounds named `key` under `c`, `c` included, in preorder.
pub fn collect<'a>(c: &'a Compound, key: &String, out: &mut Vec<&'a Compound>)
    ensures
        targets_of(final(out)@) == targets_of(old(out)@) + found_in(*c, key@),
    decreases *c, 2nat, 0nat,
{
    let ghost start = targets_of(out@);
    if c.name == *key {
        proof {
            lemma_targets_push(out@, c);
        }
        out.push(c);
        assert(targets_of(out@) == start + seq![*c]);
    } else {
        assert(start + Seq::<Compound>::empty() =~= start);
    }
    let ghost mid = targets_of(out@);
    let mut i: usize = 0;
    while i < c.values.len()
        invariant
            i <= c.values@.len(),
            targets_of(out@) == mid + found_in_entries(*c, key@, i as nat),
            mid == start + (if c.name@ == key@ {
                seq![*c]
            } else {
                Seq::empty()
            }),
        decreases c.values@.len() - i,
    {
        collect_child(&c.values[i].1, key, out);
        assert(targets_of(out@) =~= mid + found_in_entries(*c, key@, (i + 1) as nat));
        i = i + 1;
    }
    assert(targets_of(out@) =~= start + found_in(*c, key@));
}

/// Appends to `out` the compounds named `key` reached from the value `t`.
pub fn collect_child<'a>(t: &'a Tag, key: &String, out: &mut Vec<&'a Compound>)
    ensures
        targets_of(final(out)@) == targets_of(old(out)@) + found_in_child(*t, key@),
    decreases *t, 2nat, 0nat,
{
    let ghost start = targets_of(out@);
    match t {
        Tag::Compound(d) => {
            collect(d, key, out);
        },
        Tag::List(xs) => {
            let mut i: usize = 0;
            while i < xs.len()
                invariant
                    i <= xs@.len(),
                    *t == Tag::List(*xs),
                    targets_of(out@) == start + found_in_items(*t, key@, i as nat),
                decreases xs@.len() - i,
            {
                match &xs[i] {
                    Tag::Compound(d) => {
                        collect(d, key, out);
                        assert(targets_of(out@) =~= start + found_in_items(*t, key@, (i + 1) as nat));
                    },
                    Tag::List(_) => {
                        collect_child(&xs[i], key, out);
                        assert(targets_of(out@) =~= start + found_in_items(*t, key@, (i + 1) as nat));
                    },
                    _ => {
                    },
                }
                i = i + 1;
            }
        },
        _ => {
            assert(start + Seq::<Compound>::empty() =~= start);
        },
    }
}

proof fn lemma_entries_prefix(c: Compound, key: Seq<char>, m: nat, n: nat)
    requires
        m <= n <= c.values@.len(),
    ensures
        found_in_entries(c, key, m).len() <= found_in_entries(c, key, n).len(),
        forall|j: int| 0 <= j < found_in_entries(c, key, m).len()
            ==> #[trigger] found_in_entries(c, key, n)[j] == found_in_entries(c, key, m)[j],
    decreases n - m,
{
    if m < n {
        lemma_entries_prefix(c, key, m, (n - 1) as nat);
    }
}

proof fn lemma_items_prefix(t: Tag, key: Seq<char>, m: nat, n: nat)
    requires
        t is List,
        m <= n <= t->List_0@.len(),
    ensures
        found_in_items(t, key, m).len() <= found_in_items(t, key, n).len(),
        forall|j: int| 0 <= j < found_in_items(t, key, m).len()
            ==> #[trigger] found_in_items(t, key, n)[j] == found_in_items(t, key, m)[j],
    decreases n - m,
{
    if m < n {
        lemma_items_prefix(t, key, m, (n - 1) as nat);
    }
}

/// The first compound named `key` under `c` in preorder, `c` included.
pub fn first_in<'a>(c: &'a Compound, key: &String) -> (r: Option<&'a Compound>)
    ensures
        r is None <==> found_in(*c, key@).len() == 0,
        r matches Some(x) ==> *x == found_in(*c, key@)[0],
    decreases *c, 2nat, 0nat,
{
    if c.name == *key {
        return Some(c);
    }
    let mut i: usize = 0;
    while i < c.values.len()
        invariant
            i <= c.values@.len(),
            c.name@ != key@,
            found_in_entries(*c, key@, i as nat).len() == 0,
        decreases c.values@.len() - i,
    {
        let hit = first_in_child(&c.values[i].1, key);
        proof {
            lemma_entries_prefix(*c, key@, (i + 1) as nat, c.values@.len());
            assert(found_in_entries(*c, key@, (i + 1) as nat) =~= found_in_entries(*c, key@, i as nat)
                + found_in_child(c.values@[i as int].1, key@));
            assert(found_in(*c, key@) =~= found_in_entries(*c, key@, c.values@.len()));
        }
        if hit.is_some() {
            return hit;
        }
        i = i + 1;
    }
    proof {
        assert(found_in(*c, key@) =~= found_in_entries(*c, key@, c.values@.len()));
    }
    None
}

/// The first compound named `key` reached from the value `t`, in preorder.
pub fn first_in_child<'a>(t: &'a Tag, key: &String) -> (r: Option<&'a Compound>)
    ensures
        r is None <==> found_in_child(*t, key@).len() == 0,
        r matches Some(x) ==> *x == found_in_child(*t, key@)[0],
    decreases *t, 2nat, 0nat,
{
    match t {
        Tag::Compound(d) => first_in(d, key),
        Tag::List(xs) => {
            let mut i: usize = 0;
            while i < xs.len()
                invariant
                    i <= xs@.len(),
                    *t == Tag::List(*xs),
                    found_in_items(*t, key@, i as nat).len() == 0,
                decreases xs@.len() - i,
            {
                match &xs[i] {
                    Tag::Compound(d) => {
                        let hit = first_in(d, key);
                        proof {
                            lemma_items_prefix(*t, key@, (i + 1) as nat, xs@.len());
                            assert(found_in_items(*t, key@, (i + 1) as nat) =~= found_in_items(*t, key@, i as nat)
                                + found_in(*d, key@));
                        }
                        if hit.is_some() {
                            return hit;
                        }
                    },
                    Tag::List(_) => {
                        let hit = first_in_child(&xs[i], key);
                        proof {
                            lemma_items_prefix(*t, key@, (i + 1) as nat, xs@.len());
                            assert(found_in_items(*t, key@, (i + 1) as nat) =~= found_in_items(*t, key@, i as nat)
                                + found_in_child(xs@[i as int], key@));
                        }
                        if hit.is_some() {
                            return hit;
                        }
                    },
                    _ => {},
                }
                i = i + 1;
            }
            None
        },
        _ => None,
    }
}

/// Compounds named `key` in the tree under `root`, `root` included, in depth-first
/// preorder. With `stop_at_first`, the walk ends at the first of them.
pub fn search_by_name<'a>(root: &'a Compound, key: &String, stop_at_first: bool) -> (r: Vec<&'a Compound>)
    ensures
        !stop_at_first ==> targets_of(r@) == found_in(*root, key@),
        stop_at_first ==> targets_of(r@) == found_in(*root, key@).take(
            if found_in(*root, key@).len() == 0 { 0int } else { 1int },
        ),
{
    let mut out: Vec<&'a Compound> = Vec::new();
    if stop_at_first {
        if let Some(x) = first_in(root, key) {
            out.push(x);
        }
        assert(targets_of(out@) =~= found_in(*root, key@).take(
            if found_in(*root, key@).len() == 0 { 0int } else { 1int },
        ));
        return out;
    }
    proof {
        assert(targets_of(out@) =~= Seq::<Compound>::empty());
        assert(Seq::<Compound>::empty() + found_in(*root, key@) =~= found_in(*root, key@));
    }
    collect(root, key, &mut out);
    out
}

/// The value of the first child named `key` at index `i` or later.
pub open spec fn lookup_from(vals: Seq<(String, Tag)>, key: Seq<char>, i: int) -> Option<Tag>
    decreases vals.len() - i,
{
    if i < 0 || i >= vals.len() {
        None
    } else if vals[i].0@ == key {
        Some(vals[i].1)
    } else {
        lookup_from(vals, key, i + 1)
    }
}

/// The first child of `c` named `key`.
pub fn child<'a>(c: &'a Compound, key: &String) -> (r: Option<&'a Tag>)
    ensures
        r matches Some(t) ==> lookup_from(c.values@, key@, 0) == Some(*t),
        r is None ==> lookup_from(c.values@, key@, 0) is None,
{
    let mut i: usize = 0;
    while i < c.values.len()
        invariant
            i <= c.values@.len(),
            lookup_from(c.values@, key@, 0) == lookup_from(c.values@, key@, i as int),
        decreases c.values@.len() - i,
    {
        if c.values[i].0 == *key {
            return Some(&c.values[i].1);
        }
        i = i + 1;
    }
    None
}

/// Matches in the first `n` roots, root by root.
pub open spec fn found_in_roots(roots: Seq<Compound>, key: Seq<char>, n: nat) -> Seq<Compound>
    decreases n,
{
    if n == 0 || n > roots.len() {
        Seq::empty()
    } else {
        found_in_roots(roots, key, (n - 1) as nat) + found_in(roots[n - 1], key)
    }
}

/// The decoded root compounds of a world, a region or a single file.
pub struct McWorldDescriptor {
    /// The world directory or file the roots were read from.
    pub input_path: String,
    pub version: String,
    pub tag_compounds_list: Vec<Compound>,
}

impl McWorldDescriptor {
    /// A descriptor over `roots` read from `input_path`, with the default data version.
    pub fn new(input_path: String, roots: Vec<Compound>) -> (r: Self)
        ensures
            r.input_path@ == input_path@,
            r.tag_compounds_list@ == roots@,
            r.version@ == seq!['0', '.', '0', '.', '0'],
    {
        let version = String::from_str("0.0.0");
        proof {
            reveal_strlit("0.0.0");
        }
        McWorldDescriptor { input_path, version, tag_compounds_list: roots }
    }

    /// The data version recorded for the world.
    pub fn get_mc_version(&self) -> (r: String)
        ensures
            r@ == self.version@,
    {
        self.version.clone()
    }

    /// Compounds named `key` in every root, in root order and preorder within each;
    /// with `stop_at_first`, only the first. The flag tells whether any was found.
    pub fn search_compound<'a>(&'a self, key: &String, stop_at_first: bool) -> (r: (bool, Vec<&'a Compound>))
        ensures
            ({
                let all = found_in_roots(self.tag_compounds_list@, key@, self.tag_compounds_list@.len());
                &&& !stop_at_first ==> targets_of(r.1@) == all
                &&& stop_at_first ==> targets_of(r.1@) == all.take(
                    if all.len() == 0 { 0int } else { 1int },
                )
                &&& r.0 == (all.len() > 0)
            }),
    {
        let mut out: Vec<&'a Compound> = Vec::new();
        let mut i: usize = 0;
        proof {
            assert(targets_of(out@) =~= Seq::<Compound>::empty());
        }
        while i < self.tag_compounds_list.len()
            invariant
                i <= self.tag_compounds_list@.len(),
                targets_of(out@) == found_in_roots(self.tag_compounds_list@, key@, i as nat),
                stop_at_first ==> out@.len() == 0,
            decreases self.tag_compounds_list@.len() - i,
        {
            if stop_at_first {
                let hit = first_in(&self.tag_compounds_list[i], key);
                proof {
                    lemma_roots_prefix(
                        self.tag_compounds_list@,
                        key@,
                        (i + 1) as nat,
                        self.tag_compounds_list@.len(),
                    );
                    assert(found_in_roots(self.tag_compounds_list@, key@, (i + 1) as nat) =~= found_in_roots(
                        self.tag_compounds_list@, key@, i as nat) + found_in(self.tag_compounds_list@[i as int], key@));
                }
                if let Some(x) = hit {
                    out.push(x);
                    assert(targets_of(out@) =~= found_in_roots(
                        self.tag_compounds_list@, key@, self.tag_compounds_list@.len()).take(1));
                    return (true, out);
                }
                proof {
                    assert(targets_of(out@) =~= found_in_roots(self.tag_compounds_list@, key@, (i + 1) as nat));
                }
            } else {
                collect(&self.tag_compounds_list[i], key, &mut out);
            }
            i = i + 1;
        }
        let found = out.len() > 0;
        (found, out)
    }
}

proof fn lemma_roots_prefix(roots: Seq<Compound>, key: Seq<char>, m: nat, n: nat)
    requires
        m <= n <= roots.len(),
    ensures
        found_in_roots(roots, key, n).len() >= found_in_roots(roots, key, m).len(),
        forall|j: int| 0 <= j < found_in_roots(roots, key, m).len()
            ==> #[trigger] found_in_roots(roots, key, n)[j] == found_in_roots(roots, key, m)[j],
    decreases n - m,
{
    if m < n {
        lemma_roots_prefix(roots, key, m, (n - 1) as nat);
    }
}

} // verus!
