//! Orders of texts, and sorting by them.
use vstd::prelude::*;

use crate::text;

verus! {

/// Whether `a` comes before `b`: at the first difference it has the smaller
/// character, or it ends there.
pub open spec fn before(a: Seq<char>, b: Seq<char>) -> bool
    decreases a.len(),
{
    if b.len() == 0 {
        false
    } else if a.len() == 0 {
        true
    } else if a[0] != b[0] {
        a[0] < b[0]
    } else {
        before(a.drop_first(), b.drop_first())
    }
}

/// No text comes before itself.
pub proof fn before_is_irreflexive(a: Seq<char>)
    ensures
        !before(a, a),
    decreases a.len(),
{
    if a.len() > 0 {
        before_is_irreflexive(a.drop_first());
    }
}

/// Of two texts, one comes before the other unless they are the same.
pub proof fn before_is_total(a: Seq<char>, b: Seq<char>)
    ensures
        before(a, b) || before(b, a) || a == b,
    decreases a.len(),
{
    if a.len() == 0 || b.len() == 0 {
        if a.len() == 0 && b.len() == 0 {
            assert(a =~= b);
        }
    } else if a[0] == b[0] {
        before_is_total(a.drop_first(), b.drop_first());
        if a.drop_first() == b.drop_first() {
            assert(a =~= seq![a[0]] + a.drop_first());
            assert(b =~= seq![b[0]] + b.drop_first());
        }
    }
}

/// The order is transitive.
pub proof fn before_is_transitive(a: Seq<char>, b: Seq<char>, c: Seq<char>)
    requires
        before(a, b),
        before(b, c),
    ensures
        before(a, c),
    decreases a.len(),
{
    if a.len() > 0 && b.len() > 0 && c.len() > 0 && a[0] == b[0] && b[0] == c[0] {
        before_is_transitive(a.drop_first(), b.drop_first(), c.drop_first());
    }
}

pub fn is_before(a: &str, b: &str) -> (r: bool)
    ensures
        r == before(a@, b@),
{
    let x = text::chars_of(a);
    let y = text::chars_of(b);
    let mut i: usize = 0;
    assert(a@.skip(0) =~= a@);
    assert(b@.skip(0) =~= b@);
    while i < x.len() && i < y.len()
        invariant
            i <= x.len(),
            i <= y.len(),
            x@ == a@,
            y@ == b@,
            before(a@, b@) == before(a@.skip(i as int), b@.skip(i as int)),
        decreases x.len() - i,
    {
        if x[i] != y[i] {
            return x[i] < y[i];
        }
        assert(a@.skip(i as int).drop_first() =~= a@.skip(i + 1));
        assert(b@.skip(i as int).drop_first() =~= b@.skip(i + 1));
        i += 1;
    }
    i < y.len()
}

/// An order of texts, in which different ones may stand alike.
pub trait TextOrder: Sized {
    spec fn comes_before(a: Seq<char>, b: Seq<char>) -> bool;

    proof fn irreflexive(a: Seq<char>)
        ensures
            !Self::comes_before(a, a),
    ;

    proof fn transitive(a: Seq<char>, b: Seq<char>, c: Seq<char>)
        requires
            Self::comes_before(a, b),
            Self::comes_before(b, c),
        ensures
            Self::comes_before(a, c),
    ;

    /// Of two texts in order, any other comes behind the first or before the
    /// second.
    proof fn comparable(a: Seq<char>, b: Seq<char>, c: Seq<char>)
        requires
            Self::comes_before(a, b),
        ensures
            Self::comes_before(a, c) || Self::comes_before(c, b),
    ;

    fn is_first(a: &str, b: &str) -> (r: bool)
        ensures
            r == Self::comes_before(a@, b@),
    ;
}

/// The order of texts, character by character.
pub struct ByText;

impl TextOrder for ByText {
    open spec fn comes_before(a: Seq<char>, b: Seq<char>) -> bool {
        before(a, b)
    }

    proof fn irreflexive(a: Seq<char>) {
        before_is_irreflexive(a);
    }

    proof fn transitive(a: Seq<char>, b: Seq<char>, c: Seq<char>) {
        before_is_transitive(a, b, c);
    }

    proof fn comparable(a: Seq<char>, b: Seq<char>, c: Seq<char>) {
        before_is_total(a, c);
        if before(c, a) {
            before_is_transitive(c, a, b);
        }
    }

    fn is_first(a: &str, b: &str) -> (r: bool) {
        is_before(a, b)
    }
}

/// Whether no text comes before one that stands earlier in the list.
pub open spec fn sorted<O: TextOrder>(v: Seq<Seq<char>>) -> bool {
    forall|i: int, j: int|
        0 <= i < j < v.len() ==> !O::comes_before(#[trigger] v[j], #[trigger] v[i])
}

/// Whether two texts stand alike.
pub open spec fn alike<O: TextOrder>(a: Seq<char>, b: Seq<char>) -> bool {
    !O::comes_before(a, b) && !O::comes_before(b, a)
}

/// Those of a list that stand like this text, in their order.
pub open spec fn those_alike<O: TextOrder>(v: Seq<Seq<char>>, s: Seq<char>) -> Seq<Seq<char>> {
    v.filter(|t: Seq<char>| alike::<O>(t, s))
}

/// Texts that stand like the same text stand alike.
proof fn lemma_alike<O: TextOrder>(a: Seq<char>, b: Seq<char>, c: Seq<char>)
    requires
        alike::<O>(a, b),
        alike::<O>(b, c),
    ensures
        alike::<O>(a, c),
{
    if O::comes_before(a, c) {
        O::comparable(a, c, b);
    }
    if O::comes_before(c, a) {
        O::comparable(c, a, b);
    }
}

proof fn lemma_chain<O: TextOrder>(v: Seq<Seq<char>>, i: int, j: int, x: Seq<char>)
    requires
        sorted::<O>(v),
        0 <= i < j < v.len(),
        O::comes_before(x, v[i]),
    ensures
        O::comes_before(x, v[j]),
{
    O::comparable(x, v[i], v[j]);
}

/// A text that is put in before those that it comes before is the last of those
/// that stand like it.
proof fn lemma_put_in<O: TextOrder>(was: Seq<Seq<char>>, k: int, new: Seq<char>, s: Seq<char>)
    requires
        0 <= k <= was.len(),
        forall|j: int| k <= j < was.len() ==> O::comes_before(new, #[trigger] was[j]),
    ensures
        those_alike::<O>(was.insert(k, new), s) == those_alike::<O>(was.push(new), s),
{
    let p = |t: Seq<char>| alike::<O>(t, s);
    let head = was.take(k);
    let tail = was.skip(k);
    assert(was.insert(k, new) =~= head + (seq![new] + tail));
    assert(was.push(new) =~= head + (tail + seq![new]));
    Seq::filter_distributes_over_add(head, seq![new] + tail, p);
    Seq::filter_distributes_over_add(head, tail + seq![new], p);
    Seq::filter_distributes_over_add(seq![new], tail, p);
    Seq::filter_distributes_over_add(tail, seq![new], p);
    if p(new) {
        assert(tail.filter(p) =~= Seq::<Seq<char>>::empty()) by {
            broadcast use vstd::seq_lib::group_filter_ensures;

            if tail.filter(p).len() > 0 {
                let t = tail.filter(p)[0];
                lemma_filtered(tail, p, 0);
                let j = choose|j: int| 0 <= j < tail.len() && tail[j] == t;
                assert(tail[j] == was[k + j]);
                assert(p(t));
                assert(alike::<O>(s, new));
                lemma_alike::<O>(t, s, new);
            }
        }
    } else {
        reveal_with_fuel(Seq::filter, 2);
        assert(seq![new].drop_last() =~= Seq::<Seq<char>>::empty());
        assert(seq![new].filter(p) =~= Seq::<Seq<char>>::empty());
    }
    assert(seq![new].filter(p) + tail.filter(p) =~= tail.filter(p) + seq![new].filter(p));
}

proof fn lemma_filtered(v: Seq<Seq<char>>, p: spec_fn(Seq<char>) -> bool, i: int)
    requires
        0 <= i < v.filter(p).len(),
    ensures
        v.contains(v.filter(p)[i]),
    decreases v.len(),
{
    reveal(Seq::filter);
    if v.len() > 0 {
        let d = v.drop_last();
        if i < d.filter(p).len() {
            lemma_filtered(d, p, i);
            let j = choose|j: int| 0 <= j < d.len() && d[j] == d.filter(p)[i];
            assert(v[j] == d[j]);
        } else {
            assert(v[v.len() - 1] == v.last());
        }
    }
}

/// The texts in order; those that stand alike keep theirs.
pub fn sort<O: TextOrder>(v: Vec<String>) -> (r: Vec<String>)
    ensures
        sorted::<O>(text::texts(r@)),
        text::texts(r@).to_multiset() == text::texts(v@).to_multiset(),
        forall|s: Seq<char>| #[trigger]
            those_alike::<O>(text::texts(r@), s) == those_alike::<O>(text::texts(v@), s),
{
    let ghost all = text::texts(v@);
    let mut out: Vec<String> = Vec::new();
    assert(text::texts(out@) =~= all.take(0));
    for item in it: v
        invariant
            all == text::texts(it.seq()),
            sorted::<O>(text::texts(out@)),
            text::texts(out@).to_multiset() == all.take(it.index()).to_multiset(),
            forall|s: Seq<char>| #[trigger]
                those_alike::<O>(text::texts(out@), s) == those_alike::<O>(
                    all.take(it.index()),
                    s,
                ),
    {
        let ghost was = text::texts(out@);
        let ghost new = item@;
        let mut k: usize = out.len();
        while k > 0 && O::is_first(item.as_str(), out[k - 1].as_str())
            invariant
                k <= out.len(),
                was == text::texts(out@),
                new == item@,
                forall|j: int| k <= j < out.len() ==> O::comes_before(new, #[trigger] was[j]),
            decreases k,
        {
            k -= 1;
        }
        assert(k > 0 ==> !O::comes_before(new, was[k - 1]));
        out.insert(k, item);
        proof {
            let now = text::texts(out@);
            assert(now =~= was.insert(k as int, new));
            assert forall|i: int, j: int| 0 <= i < j < now.len() implies !O::comes_before(
                #[trigger] now[j],
                #[trigger] now[i],
            ) by {
                let a = if i < k {
                    was[i]
                } else if i == k {
                    new
                } else {
                    was[i - 1]
                };
                let b = if j < k {
                    was[j]
                } else if j == k {
                    new
                } else {
                    was[j - 1]
                };
                assert(now[i] == a && now[j] == b);
                if j == k {
                    if O::comes_before(new, was[i]) {
                        if i < k - 1 {
                            lemma_chain::<O>(was, i, k - 1, new);
                        }
                    }
                } else if i == k {
                    if O::comes_before(b, new) {
                        O::transitive(b, new, b);
                        O::irreflexive(b);
                    }
                }
            }
            let done = all.take(it.index());
            assert(all.take(it.index() + 1) =~= done.push(new));
            assert forall|s: Seq<char>| #[trigger] those_alike::<O>(now, s) == those_alike::<O>(
                all.take(it.index() + 1),
                s,
            ) by {
                let p = |t: Seq<char>| alike::<O>(t, s);
                lemma_put_in::<O>(was, k as int, new, s);
                assert(was.push(new) =~= was + seq![new]);
                assert(done.push(new) =~= done + seq![new]);
                Seq::filter_distributes_over_add(was, seq![new], p);
                Seq::filter_distributes_over_add(done, seq![new], p);
                assert(those_alike::<O>(was, s) == those_alike::<O>(done, s));
            }
            broadcast use vstd::seq_lib::group_to_multiset_ensures;

            assert(was.insert(k as int, new).to_multiset() =~= was.to_multiset().insert(new));
            assert(done.push(new).to_multiset() =~= done.to_multiset().insert(new));
        }
    }
    assert(all.take(all.len() as int) =~= all);
    out
}

/// Whether the list is in order and no two of it stand alike.
pub open spec fn strictly_sorted<O: TextOrder>(v: Seq<Seq<char>>) -> bool {
    forall|i: int, j: int|
        0 <= i < j < v.len() ==> O::comes_before(#[trigger] v[i], #[trigger] v[j])
}

/// Whether the text at `i` is the first of a list that stands like it.
pub open spec fn first_alike<O: TextOrder>(v: Seq<Seq<char>>, i: int) -> bool {
    0 <= i < v.len() && forall|j: int| 0 <= j < i ==> !alike::<O>(#[trigger] v[j], v[i])
}

/// The first of those of a list that stand like a text, where there are any.
proof fn lemma_some_alike<O: TextOrder>(v: Seq<Seq<char>>, s: Seq<char>)
    requires
        exists|t: Seq<char>| v.contains(t) && #[trigger] alike::<O>(t, s),
    ensures
        those_alike::<O>(v, s).len() > 0,
        exists|i: int|
            #[trigger] first_alike::<O>(v, i) && v[i] == those_alike::<O>(v, s)[0] && alike::<O>(
                v[i],
                s,
            ),
    decreases v.len(),
{
    let p = |t: Seq<char>| alike::<O>(t, s);
    reveal(Seq::filter);
    let d = v.drop_last();
    let t = choose|t: Seq<char>| v.contains(t) && #[trigger] alike::<O>(t, s);
    if exists|u: Seq<char>| d.contains(u) && #[trigger] alike::<O>(u, s) {
        lemma_some_alike::<O>(d, s);
        let i = choose|i: int|
            #[trigger] first_alike::<O>(d, i) && d[i] == those_alike::<O>(d, s)[0] && alike::<O>(
                d[i],
                s,
            );
        assert forall|j: int| 0 <= j < i implies !alike::<O>(#[trigger] v[j], v[i]) by {
            assert(v[j] == d[j]);
        }
        assert(v[i] == d[i]);
        assert(first_alike::<O>(v, i));
        assert(those_alike::<O>(v, s)[0] == those_alike::<O>(d, s)[0]);
    } else {
        let q = choose|q: int| 0 <= q < v.len() && v[q] == t;
        if q < d.len() {
            assert(d[q] == t);
            assert(d.contains(t));
        }
        let n = v.len() - 1;
        assert(v[n] == t);
        assert forall|j: int| 0 <= j < n implies !alike::<O>(#[trigger] v[j], v[n]) by {
            assert(d[j] == v[j]);
            assert(d.contains(v[j]));
            if alike::<O>(v[j], t) {
                lemma_alike::<O>(v[j], t, s);
            }
        }
        assert(first_alike::<O>(v, n));
        if d.filter(p).len() > 0 {
            lemma_filtered(d, p, 0);
            d.lemma_filter_pred(p, 0);
            assert(alike::<O>(d.filter(p)[0], s));
        }
        assert(those_alike::<O>(v, s)[0] == t);
    }
}

proof fn lemma_first_of_its_kind<O: TextOrder>(v: Seq<Seq<char>>, i: int)
    requires
        first_alike::<O>(v, i),
    ensures
        those_alike::<O>(v, v[i]).len() > 0,
        those_alike::<O>(v, v[i])[0] == v[i],
{
    O::irreflexive(v[i]);
    assert(v.contains(v[i]) && alike::<O>(v[i], v[i]));
    lemma_some_alike::<O>(v, v[i]);
    let k = choose|k: int|
        #[trigger] first_alike::<O>(v, k) && v[k] == those_alike::<O>(v, v[i])[0] && alike::<O>(
            v[k],
            v[i],
        );
    assert(!(k < i));
    assert(alike::<O>(v[i], v[k]));
}

/// What is first of its kind in one list is so in another that has the same texts
/// of each kind, in the same order.
proof fn lemma_same_firsts<O: TextOrder>(v: Seq<Seq<char>>, w: Seq<Seq<char>>, i: int)
    requires
        forall|s: Seq<char>| #[trigger] those_alike::<O>(v, s) == those_alike::<O>(w, s),
        first_alike::<O>(v, i),
    ensures
        exists|k: int| #[trigger] first_alike::<O>(w, k) && w[k] == v[i],
{
    let s = v[i];
    let p = |t: Seq<char>| alike::<O>(t, s);
    lemma_first_of_its_kind::<O>(v, i);
    assert(those_alike::<O>(w, s) == those_alike::<O>(v, s));
    lemma_filtered(w, p, 0);
    w.lemma_filter_pred(p, 0);
    assert(w.contains(s) && alike::<O>(s, s));
    lemma_some_alike::<O>(w, s);
    let k = choose|k: int|
        #[trigger] first_alike::<O>(w, k) && w[k] == those_alike::<O>(w, s)[0] && alike::<O>(
            w[k],
            s,
        );
    assert(w[k] == v[i]);
}

/// Whether a list holds the texts of another that are the first of those that stand
/// like them, and no others.
pub open spec fn keeps_firsts<O: TextOrder>(v: Seq<Seq<char>>, r: Seq<Seq<char>>) -> bool {
    &&& forall|i: int| #[trigger] first_alike::<O>(v, i) ==> r.contains(v[i])
    &&& forall|k: int|
        0 <= k < r.len() ==> exists|i: int| #[trigger]
            first_alike::<O>(v, i) && v[i] == #[trigger] r[k]
}

/// The texts in order; of those that stand alike, the first.
pub fn sort_unique<O: TextOrder>(v: Vec<String>) -> (r: Vec<String>)
    ensures
        strictly_sorted::<O>(text::texts(r@)),
        keeps_firsts::<O>(text::texts(v@), text::texts(r@)),
{
    let ghost given = text::texts(v@);
    let all = sort::<O>(v);
    let ghost full = text::texts(all@);
    let mut out: Vec<String> = Vec::new();
    // Where each text that is kept stands among all.
    let ghost mut from: Seq<int> = Seq::empty();
    assert(text::texts(out@) =~= Seq::<Seq<char>>::empty());
    for item in it: all
        invariant
            full == text::texts(it.seq()),
            sorted::<O>(full),
            from.len() == out@.len(),
            forall|k: int|
                0 <= k < from.len() ==> first_alike::<O>(full, #[trigger] from[k]) && from[k]
                    < it.index() && text::texts(out@)[k] == full[from[k]],
            forall|i: int|
                i < it.index() && #[trigger] first_alike::<O>(full, i) ==> from.contains(i),
            strictly_sorted::<O>(text::texts(out@)),
            out@.len() > 0 <==> it.index() > 0,
            it.index() > 0 ==> alike::<O>(text::texts(out@).last(), full[it.index() - 1]),
    {
        let ghost was = text::texts(out@);
        let ghost new = item@;
        let ghost n = it.index();
        assert(full[n] == new);
        assert(was.len() == out@.len());
        let fresh = out.len() == 0 || O::is_first(out[out.len() - 1].as_str(), item.as_str());
        if fresh {
            let ghost kept = from;
            proof {
                assert forall|j: int| 0 <= j < n implies !alike::<O>(
                    #[trigger] full[j],
                    full[n],
                ) by {
                    assert(was.last() == was[was.len() - 1]);
                    assert(!O::comes_before(full[n - 1], full[j]) || j == n - 1);
                    if alike::<O>(full[j], full[n]) {
                        O::comparable(was.last(), new, full[n - 1]);
                        if j < n - 1 {
                            O::comparable(full[n - 1], new, full[j]);
                        }
                    }
                }
                assert(first_alike::<O>(full, n));
                from = kept.push(n);
                assert forall|i: int| i < n + 1 && #[trigger] first_alike::<O>(
                    full,
                    i,
                ) implies from.contains(i) by {
                    if i < n {
                        let k = choose|k: int| 0 <= k < kept.len() && kept[k] == i;
                        assert(from[k] == i);
                    } else {
                        assert(from[kept.len() as int] == n);
                    }
                }
            }
            out.push(item);
            proof {
                let now = text::texts(out@);
                assert(now =~= was.push(new));
                assert forall|i: int, j: int| 0 <= i < j < now.len() implies O::comes_before(
                    #[trigger] now[i],
                    #[trigger] now[j],
                ) by {
                    if j == was.len() && i < was.len() - 1 {
                        O::transitive(was[i], was.last(), new);
                    }
                }
                assert forall|k: int| 0 <= k < from.len() implies first_alike::<O>(
                    full,
                    #[trigger] from[k],
                ) && from[k] < n + 1 && now[k] == full[from[k]] by {
                    if k < kept.len() {
                        assert(from[k] == kept[k]);
                    }
                }
                O::irreflexive(new);
            }
        } else {
            proof {
                let last = from.last();
                assert(was.last() == full[last]);
                assert(from[from.len() - 1] == last);
                assert(last < n);
                assert(!O::comes_before(full[n], full[last]));
                assert(alike::<O>(was.last(), new));
                assert(alike::<O>(full[last], full[n]));
                assert(!first_alike::<O>(full, n));
            }
        }
    }
    proof {
        let kept = text::texts(out@);
        assert forall|i: int| #[trigger] first_alike::<O>(given, i) implies kept.contains(
            given[i],
        ) by {
            lemma_same_firsts::<O>(given, full, i);
            let k = choose|k: int| #[trigger] first_alike::<O>(full, k) && full[k] == given[i];
            let q = choose|q: int| 0 <= q < from.len() && from[q] == k;
            assert(kept[q] == full[from[q]]);
        }
        assert forall|k: int| 0 <= k < out@.len() implies exists|i: int| #[trigger]
            first_alike::<O>(given, i) && given[i] == #[trigger] kept[k] by {
            assert(first_alike::<O>(full, from[k]));
            lemma_same_firsts::<O>(full, given, from[k]);
        }
    }
    out
}

/// Texts are in order by their first difference: where they differ first the smaller
/// character comes first, and a beginning comes before what it begins.
pub proof fn texts_are_ordered_by_their_first_difference(
    common: Seq<char>,
    a: Seq<char>,
    b: Seq<char>,
    x: char,
    y: char,
)
    requires
        x < y,
    ensures
        before(common + seq![x] + a, common + seq![y] + b),
        !before(common + seq![y] + b, common + seq![x] + a),
        before(common, common + seq![x] + a),
        !before(common + seq![x] + a, common),
    decreases common.len(),
{
    let p = common + seq![x] + a;
    let q = common + seq![y] + b;
    if common.len() > 0 {
        let t = common.drop_first();
        texts_are_ordered_by_their_first_difference(t, a, b, x, y);
        assert(p.drop_first() =~= t + seq![x] + a);
        assert(q.drop_first() =~= t + seq![y] + b);
    }
}

/// A list is sorted where none of its texts comes before an earlier one, and strictly where every
/// one comes before all later ones.
pub proof fn sorted_lists_never_descend<O: TextOrder>(v: Seq<Seq<char>>, i: int, j: int)
    requires
        0 <= i < j < v.len(),
    ensures
        sorted::<O>(v) ==> !O::comes_before(v[j], v[i]),
        strictly_sorted::<O>(v) ==> O::comes_before(v[i], v[j]) && v[i] != v[j],
        O::comes_before(v[j], v[i]) ==> !sorted::<O>(v),
        !O::comes_before(v[i], v[j]) ==> !strictly_sorted::<O>(v),
{
    O::irreflexive(v[i]);
}

proof fn lemma_first_of_those_alike<O: TextOrder>(v: Seq<Seq<char>>, i: int) -> (k: int)
    requires
        0 <= i < v.len(),
    ensures
        0 <= k <= i,
        first_alike::<O>(v, k),
        alike::<O>(v[k], v[i]),
    decreases i,
{
    if first_alike::<O>(v, i) {
        O::irreflexive(v[i]);
        i
    } else {
        let j = choose|j: int| 0 <= j < i && alike::<O>(#[trigger] v[j], v[i]);
        let k = lemma_first_of_those_alike::<O>(v, j);
        if O::comes_before(v[k], v[i]) {
            O::comparable(v[k], v[i], v[j]);
        }
        if O::comes_before(v[i], v[k]) {
            O::comparable(v[i], v[k], v[j]);
        }
        k
    }
}

/// A list that keeps the first of every group of alike texts holds nothing but texts of the other
/// list, and for each of those one that is alike.
pub proof fn firsts_stand_for_those_alike<O: TextOrder>(
    v: Seq<Seq<char>>,
    r: Seq<Seq<char>>,
    i: int,
    k: int,
) -> (found: (int, int))
    requires
        keeps_firsts::<O>(v, r),
        0 <= i < v.len(),
        0 <= k < r.len(),
    ensures
        0 <= found.0 < r.len(),
        alike::<O>(r[found.0], v[i]),
        0 <= found.1 < v.len(),
        v[found.1] == r[k],
        forall|j: int| 0 <= j < found.1 ==> !alike::<O>(#[trigger] v[j], r[k]),
        alike::<O>(r[k], r[k]),
        forall|a: Seq<char>, b: Seq<char>|
            #![trigger alike::<O>(a, b)]
            alike::<O>(a, b) <==> !O::comes_before(a, b) && !O::comes_before(b, a),
{
    let first = lemma_first_of_those_alike::<O>(v, i);
    assert(r.contains(v[first]));
    let at = choose|at: int| 0 <= at < r.len() && r[at] == v[first];
    let from = choose|from: int| #[trigger] first_alike::<O>(v, from) && v[from] == r[k];
    assert(first_alike::<O>(v, from));
    O::irreflexive(r[k]);
    (at, from)
}

/// The texts of a list that are alike to one are those that neither come before it nor behind it, in
/// their order.
pub proof fn those_alike_are_kept_in_order<O: TextOrder>(
    a: Seq<Seq<char>>,
    t: Seq<char>,
    s: Seq<char>,
)
    ensures
        those_alike::<O>(Seq::empty(), s) == Seq::<Seq<char>>::empty(),
        !O::comes_before(t, s) && !O::comes_before(s, t) ==> those_alike::<O>(a.push(t), s)
            == those_alike::<O>(a, s).push(t),
        O::comes_before(t, s) || O::comes_before(s, t) ==> those_alike::<O>(a.push(t), s)
            == those_alike::<O>(a, s),
{
    reveal(Seq::filter);
    assert(a.push(t).drop_last() =~= a);
}

} // verus!
