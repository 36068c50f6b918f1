//! The order of paths, part by part.
//!
//! A path that lies in a directory stands with the others of it: `a/b` comes
//! before `a-b`, though `-` comes before `/`.
use vstd::prelude::*;

use crate::order;
use crate::order::TextOrder;
use crate::paths;
use crate::text;

verus! {

broadcast use vstd::string::group_string_axioms;

/// A part of a path.
pub enum Part {
    Root,
    /// A leading `.`.
    Here,
    /// `..`.
    Up,
    Name(Seq<char>),
}

pub open spec fn part_of(name: Seq<char>) -> Part {
    if name == ".."@ {
        Part::Up
    } else {
        Part::Name(name)
    }
}

/// The part that a path begins with before its names, if it has one.
pub open spec fn head(path: Seq<char>) -> Seq<Part> {
    if paths::absolute(path) {
        seq![Part::Root]
    } else if paths::from_here(path) {
        seq![Part::Here]
    } else {
        Seq::empty()
    }
}

/// The parts of a path.
pub open spec fn components(path: Seq<char>) -> Seq<Part> {
    head(path) + paths::names(path).map_values(|name: Seq<char>| part_of(name))
}

/// The place of a part among those of other kinds.
pub open spec fn rank(part: Part) -> u8 {
    match part {
        Part::Root => 0,
        Part::Here => 1,
        Part::Up => 2,
        Part::Name(_) => 3,
    }
}

pub open spec fn part_before(a: Part, b: Part) -> bool {
    match (a, b) {
        (Part::Name(x), Part::Name(y)) => order::before(x, y),
        _ => rank(a) < rank(b),
    }
}

/// Whether parts come before others: at the first difference they have the smaller
/// part, or they end there.
pub open spec fn parts_before(a: Seq<Part>, b: Seq<Part>) -> bool
    decreases a.len(),
{
    if b.len() == 0 {
        false
    } else if a.len() == 0 {
        true
    } else if a[0] != b[0] {
        part_before(a[0], b[0])
    } else {
        parts_before(a.drop_first(), b.drop_first())
    }
}

proof fn lemma_parts_irreflexive(a: Seq<Part>)
    ensures
        !parts_before(a, a),
    decreases a.len(),
{
    if a.len() > 0 {
        lemma_parts_irreflexive(a.drop_first());
    }
}

proof fn lemma_part_total(a: Part, b: Part)
    ensures
        part_before(a, b) || part_before(b, a) || a == b,
{
    if let (Part::Name(x), Part::Name(y)) = (a, b) {
        order::before_is_total(x, y);
    }
}

proof fn lemma_part_transitive(a: Part, b: Part, c: Part)
    requires
        part_before(a, b),
        part_before(b, c),
    ensures
        part_before(a, c),
        a != c,
{
    if let (Part::Name(x), Part::Name(y), Part::Name(z)) = (a, b, c) {
        order::before_is_transitive(x, y, z);
        order::before_is_irreflexive(x);
    }
}

proof fn lemma_parts_total(a: Seq<Part>, b: Seq<Part>)
    ensures
        parts_before(a, b) || parts_before(b, a) || a == b,
    decreases a.len(),
{
    if a.len() == 0 || b.len() == 0 {
        if a.len() == 0 && b.len() == 0 {
            assert(a =~= b);
        }
    } else if a[0] == b[0] {
        lemma_parts_total(a.drop_first(), b.drop_first());
        if a.drop_first() == b.drop_first() {
            assert(a =~= seq![a[0]] + a.drop_first());
            assert(b =~= seq![b[0]] + b.drop_first());
        }
    } else {
        lemma_part_total(a[0], b[0]);
    }
}

proof fn lemma_parts_transitive(a: Seq<Part>, b: Seq<Part>, c: Seq<Part>)
    requires
        parts_before(a, b),
        parts_before(b, c),
    ensures
        parts_before(a, c),
    decreases a.len(),
{
    if a.len() > 0 && b.len() > 0 && c.len() > 0 {
        if a[0] == b[0] && b[0] == c[0] {
            lemma_parts_transitive(a.drop_first(), b.drop_first(), c.drop_first());
        } else if a[0] != b[0] && b[0] != c[0] {
            lemma_part_transitive(a[0], b[0], c[0]);
        }
    }
}

/// Paths have the same parts exactly where they are the same path.
pub proof fn parts_tell_paths(a: Seq<char>, b: Seq<char>)
    ensures
        components(a) == components(b) <==> paths::same_path(a, b),
{
    let x = components(a);
    let y = components(b);
    let p = paths::names(a);
    let q = paths::names(b);
    paths::lemma_not_both(a);
    paths::lemma_not_both(b);
    if x == y {
        assert(paths::absolute(a) <==> x.len() > 0 && x[0] is Root);
        assert(paths::absolute(b) <==> y.len() > 0 && y[0] is Root);
        assert(paths::from_here(a) <==> x.len() > 0 && x[0] is Here);
        assert(paths::from_here(b) <==> y.len() > 0 && y[0] is Here);
        let h = head(a).len() as int;
        assert(head(b).len() == h);
        assert(p.len() == q.len());
        assert forall|i: int| 0 <= i < p.len() implies p[i] == q[i] by {
            assert(x[h + i] == part_of(p[i]));
            assert(y[h + i] == part_of(q[i]));
        }
        assert(p =~= q);
    } else if paths::same_path(a, b) {
        assert(x =~= y);
    }
}

/// The parts of a path: the place of each, and its name where it has one.
fn ranked(path: &str) -> (r: Vec<(u8, String)>)
    ensures
        r@.len() == components(path@).len(),
        forall|i: int| 0 <= i < r@.len() ==> stands_for(#[trigger] r@[i], components(path@)[i]),
{
    let mut out: Vec<(u8, String)> = Vec::new();
    if paths::is_absolute(path) {
        out.push((0, String::new()));
    } else if paths::is_from_here(path) {
        out.push((1, String::new()));
    }
    let names = paths::names_of(path);
    let ghost listed = text::texts(names@);
    let ghost all = components(path@);
    let ghost h = head(path@).len() as int;
    let mut i: usize = 0;
    while i < names.len()
        invariant
            i <= names.len(),
            listed == text::texts(names@),
            listed == paths::names(path@),
            all == components(path@),
            h == head(path@).len(),
            all.len() == h + listed.len(),
            out@.len() == h + i,
            forall|k: int| 0 <= k < out@.len() ==> stands_for(#[trigger] out@[k], all[k]),
        decreases names.len() - i,
    {
        assert(all[h + i] == part_of(listed[i as int]));
        if text::same(names[i].as_str(), "..") {
            out.push((2, String::new()));
        } else {
            out.push((3, names[i].clone()));
        }
        i += 1;
    }
    out
}

/// Whether a place and a name are those of a part.
pub open spec fn stands_for(ranked: (u8, String), part: Part) -> bool {
    ranked.0 == rank(part) && (part matches Part::Name(name) ==> ranked.1@ == name)
}

/// The order of paths, part by part.
pub struct ByPath;

impl TextOrder for ByPath {
    open spec fn comes_before(a: Seq<char>, b: Seq<char>) -> bool {
        parts_before(components(a), components(b))
    }

    proof fn irreflexive(a: Seq<char>) {
        lemma_parts_irreflexive(components(a));
    }

    proof fn transitive(a: Seq<char>, b: Seq<char>, c: Seq<char>) {
        lemma_parts_transitive(components(a), components(b), components(c));
    }

    proof fn comparable(a: Seq<char>, b: Seq<char>, c: Seq<char>) {
        lemma_parts_total(components(a), components(c));
        if parts_before(components(c), components(a)) {
            lemma_parts_transitive(components(c), components(a), components(b));
        }
    }

    fn is_first(a: &str, b: &str) -> (r: bool) {
        let x = ranked(a);
        let y = ranked(b);
        let ghost p = components(a@);
        let ghost q = components(b@);
        let mut i: usize = 0;
        assert(p.skip(0) =~= p);
        assert(q.skip(0) =~= q);
        while i < x.len() && i < y.len()
            invariant
                i <= x.len(),
                i <= y.len(),
                x@.len() == p.len(),
                y@.len() == q.len(),
                p == components(a@),
                q == components(b@),
                forall|k: int| 0 <= k < x@.len() ==> stands_for(#[trigger] x@[k], p[k]),
                forall|k: int| 0 <= k < y@.len() ==> stands_for(#[trigger] y@[k], q[k]),
                parts_before(p, q) == parts_before(p.skip(i as int), q.skip(i as int)),
            decreases x.len() - i,
        {
            assert(stands_for(x@[i as int], p[i as int]));
            assert(stands_for(y@[i as int], q[i as int]));
            assert(p.skip(i as int)[0] == p[i as int]);
            assert(q.skip(i as int)[0] == q[i as int]);
            if x[i].0 != y[i].0 {
                return x[i].0 < y[i].0;
            }
            if x[i].0 == 3 && !text::same(x[i].1.as_str(), y[i].1.as_str()) {
                return order::is_before(x[i].1.as_str(), y[i].1.as_str());
            }
            assert(p[i as int] == q[i as int]);
            assert(p.skip(i as int).drop_first() =~= p.skip(i + 1));
            assert(q.skip(i as int).drop_first() =~= q.skip(i + 1));
            i += 1;
        }
        i < y.len()
    }
}

/// Paths that stand alike are the same path.
pub proof fn alike_paths_are_the_same(a: Seq<char>, b: Seq<char>)
    ensures
        order::alike::<ByPath>(a, b) <==> paths::same_path(a, b),
{
    parts_tell_paths(a, b);
    lemma_parts_total(components(a), components(b));
    lemma_parts_irreflexive(components(a));
}

/// A path is ordered before another at the first part in which they differ: a root before a path
/// from here, that before one that leads up, that before a name, and names as texts; where one ends
/// first, it comes first.
pub proof fn paths_are_ordered_by_their_first_difference(
    same: Seq<Part>,
    a: Part,
    b: Part,
    x: Seq<Part>,
    y: Seq<Part>,
)
    requires
        a != b,
    ensures
        parts_before(same + seq![a] + x, same + seq![b] + y) <==> match (a, b) {
            (Part::Root, _) => true,
            (_, Part::Root) => false,
            (Part::Here, _) => true,
            (_, Part::Here) => false,
            (Part::Up, _) => true,
            (_, Part::Up) => false,
            (Part::Name(m), Part::Name(n)) => order::before(m, n),
        },
        parts_before(same, same + seq![a] + x),
        !parts_before(same + seq![a] + x, same),
        !parts_before(same, same),
    decreases same.len(),
{
    let p = same + seq![a] + x;
    let q = same + seq![b] + y;
    if same.len() == 0 {
        assert(p[0] == a && q[0] == b);
    } else {
        let t = same.drop_first();
        paths_are_ordered_by_their_first_difference(t, a, b, x, y);
        assert(p.drop_first() =~= t + seq![a] + x);
        assert(q.drop_first() =~= t + seq![b] + y);
        assert(p[0] == same[0] && q[0] == same[0]);
    }
}

/// The parts of a path are its beginning and its names, those that lead up told from the others.
pub proof fn parts_are_the_names_of_a_path(path: Seq<char>)
    ensures
        ({
            let first: int = if paths::absolute(path) || paths::from_here(path) { 1 } else { 0 };
            &&& components(path).len() == first + paths::names(path).len()
            &&& paths::absolute(path) ==> components(path)[0] is Root
            &&& !paths::absolute(path) && paths::from_here(path) ==> components(path)[0] is Here
            &&& forall|i: int|
                0 <= i < paths::names(path).len() ==> #[trigger] components(path)[first + i] == (
                if paths::names(path)[i] == ".."@ {
                    Part::Up
                } else {
                    Part::Name(paths::names(path)[i])
                })
        }),
{
}

} // verus!
