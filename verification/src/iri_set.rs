//! Sets of IRIs kept as lists sorted by the order of `str` (code point by code point).
use vstd::prelude::*;

use crate::ids::views;
use crate::xml::vec_eq;

verus! {

/// `a` sorts before `b`, comparing from index `i` on (the order of `str`: code point by code
/// point, a proper prefix first).
pub open spec fn lex_lt_from(a: Seq<char>, b: Seq<char>, i: int) -> bool
    decreases a.len() - i,
{
    if i < 0 {
        false
    } else if i >= a.len() {
        i < b.len()
    } else if i >= b.len() {
        false
    } else if a[i] != b[i] {
        (a[i] as int) < (b[i] as int)
    } else {
        lex_lt_from(a, b, i + 1)
    }
}

/// `a` sorts before `b`.
pub open spec fn lex_lt(a: Seq<char>, b: Seq<char>) -> bool {
    lex_lt_from(a, b, 0)
}

/// Each element sorts before every later one.
pub open spec fn strictly_sorted(l: Seq<Seq<char>>) -> bool {
    forall|i: int, j: int| 0 <= i < j < l.len() ==> lex_lt(#[trigger] l[i], #[trigger] l[j])
}

/// The list of the members of the finite set `s`, in sorted order.
pub open spec fn sorted_members(s: Set<Seq<char>>) -> Seq<Seq<char>> {
    choose|l: Seq<Seq<char>>| strictly_sorted(l) && l.to_set() == s
}

proof fn lemma_lex_irreflexive(a: Seq<char>, i: int)
    requires
        0 <= i,
    ensures
        !lex_lt_from(a, a, i),
    decreases a.len() - i,
{
    if i < a.len() {
        lemma_lex_irreflexive(a, i + 1);
    }
}

proof fn lemma_lex_transitive(a: Seq<char>, b: Seq<char>, c: Seq<char>, i: int)
    requires
        0 <= i,
        lex_lt_from(a, b, i),
        lex_lt_from(b, c, i),
    ensures
        lex_lt_from(a, c, i),
    decreases a.len() - i,
{
    if i < a.len() && i < b.len() && i < c.len() && a[i] == b[i] && b[i] == c[i] {
        lemma_lex_transitive(a, b, c, i + 1);
    }
}

proof fn lemma_lex_total(a: Seq<char>, b: Seq<char>, i: int)
    requires
        0 <= i <= a.len(),
        0 <= i <= b.len(),
        !lex_lt_from(a, b, i),
        !lex_lt_from(b, a, i),
    ensures
        a.subrange(i, a.len() as int) == b.subrange(i, b.len() as int),
    decreases a.len() - i,
{
    if i < a.len() && i < b.len() {
        if a[i] == b[i] {
            lemma_lex_total(a, b, i + 1);
            assert(a.subrange(i, a.len() as int) =~= seq![a[i]] + a.subrange(i + 1, a.len() as int));
            assert(b.subrange(i, b.len() as int) =~= seq![b[i]] + b.subrange(i + 1, b.len() as int));
        } else {
            assert((a[i] as int) != (b[i] as int));
        }
    } else {
        assert(a.subrange(i, a.len() as int) =~= b.subrange(i, b.len() as int));
    }
}

/// Two sorted lists with the same members are the same list.
proof fn lemma_sorted_unique(l1: Seq<Seq<char>>, l2: Seq<Seq<char>>)
    requires
        strictly_sorted(l1),
        strictly_sorted(l2),
        l1.to_set() == l2.to_set(),
    ensures
        l1 == l2,
    decreases l1.len(),
{
    if l1.len() == 0 {
        if l2.len() > 0 {
            assert(l2.to_set().contains(l2[0]));
        }
        assert(l1 =~= l2);
    } else {
        assert(l1.to_set().contains(l1[0]));
        assert(l2.len() > 0);
        assert(l2.to_set().contains(l2[0]));
        let k = choose|k: int| 0 <= k < l2.len() && l2[k] == l1[0];
        let m = choose|m: int| 0 <= m < l1.len() && l1[m] == l2[0];
        lemma_lex_irreflexive(l1[0], 0);
        lemma_lex_irreflexive(l2[0], 0);
        if k > 0 && m > 0 {
            assert(lex_lt(l2[0], l2[k]));
            assert(lex_lt(l1[0], l1[m]));
            lemma_lex_transitive(l1[0], l2[0], l1[0], 0);
        }
        assert(l1[0] == l2[0]);
        let t1 = l1.drop_first();
        let t2 = l2.drop_first();
        assert(strictly_sorted(t1)) by {
            assert forall|i: int, j: int| 0 <= i < j < t1.len() implies lex_lt(
                #[trigger] t1[i],
                #[trigger] t1[j],
            ) by {
                assert(t1[i] == l1[i + 1] && t1[j] == l1[j + 1]);
            }
        }
        assert(strictly_sorted(t2)) by {
            assert forall|i: int, j: int| 0 <= i < j < t2.len() implies lex_lt(
                #[trigger] t2[i],
                #[trigger] t2[j],
            ) by {
                assert(t2[i] == l2[i + 1] && t2[j] == l2[j + 1]);
            }
        }
        assert(t1.to_set() =~= t2.to_set()) by {
            assert forall|x: Seq<char>| t1.to_set().contains(x) implies t2.to_set().contains(x) by {
                let i = choose|i: int| 0 <= i < t1.len() && t1[i] == x;
                assert(l1[i + 1] == x);
                assert(l1.to_set().contains(x));
                let j = choose|j: int| 0 <= j < l2.len() && l2[j] == x;
                if j == 0 {
                    assert(lex_lt(l1[0], l1[i + 1]));
                    assert(false);
                }
                assert(t2[j - 1] == x);
            }
            assert forall|x: Seq<char>| t2.to_set().contains(x) implies t1.to_set().contains(x) by {
                let i = choose|i: int| 0 <= i < t2.len() && t2[i] == x;
                assert(l2[i + 1] == x);
                assert(l2.to_set().contains(x));
                let j = choose|j: int| 0 <= j < l1.len() && l1[j] == x;
                if j == 0 {
                    assert(lex_lt(l2[0], l2[i + 1]));
                    assert(false);
                }
                assert(t1[j - 1] == x);
            }
        }
        lemma_sorted_unique(t1, t2);
        assert(l1 =~= seq![l1[0]] + t1);
        assert(l2 =~= seq![l2[0]] + t2);
    }
}

/// A sorted list is the list of its members.
pub proof fn lemma_sorted_is_members(l: Seq<Seq<char>>)
    requires
        strictly_sorted(l),
    ensures
        sorted_members(l.to_set()) == l,
{
    let m = sorted_members(l.to_set());
    assert(strictly_sorted(m) && m.to_set() == l.to_set());
    lemma_sorted_unique(m, l);
}

/// Whether `a` sorts before `b`.
pub fn lex_less(a: &Vec<char>, b: &Vec<char>) -> (r: bool)
    ensures
        r == lex_lt(a@, b@),
{
    let mut i: usize = 0;
    while i < a.len() && i < b.len() && a[i] == b[i]
        invariant
            i <= a.len(),
            i <= b.len(),
            lex_lt(a@, b@) == lex_lt_from(a@, b@, i as int),
        decreases a.len() - i,
    {
        i += 1;
    }
    if i >= a.len() {
        i < b.len()
    } else if i >= b.len() {
        false
    } else {
        a[i] < b[i]
    }
}

/// Adds `x` to the sorted list `v`, keeping it sorted and without repeats.
pub fn insert_sorted(v: &mut Vec<Vec<char>>, x: Vec<char>)
    requires
        strictly_sorted(views(old(v)@)),
    ensures
        strictly_sorted(views(final(v)@)),
        views(final(v)@).to_set() == views(old(v)@).to_set().insert(x@),
{
    let ghost old_views = views(v@);
    let mut p: usize = 0;
    while p < v.len() && lex_less(&v[p], &x)
        invariant
            p <= v.len(),
            views(v@) == old_views,
            strictly_sorted(old_views),
            forall|i: int| 0 <= i < p ==> lex_lt(#[trigger] old_views[i], x@),
        decreases v.len() - p,
    {
        assert(old_views[p as int] == v@[p as int]@);
        p += 1;
    }
    if p < v.len() && vec_eq(&v[p], &x) {
        proof {
            assert(old_views[p as int] == x@);
            assert(old_views.to_set().insert(x@) =~= old_views.to_set());
        }
        return;
    }
    proof {
        if p < v.len() {
            assert(old_views[p as int] == v@[p as int]@);
            assert(!lex_lt(old_views[p as int], x@));
            if !lex_lt(x@, old_views[p as int]) {
                lemma_lex_total(x@, old_views[p as int], 0);
                assert(x@ =~= x@.subrange(0, x@.len() as int));
                assert(old_views[p as int] =~= old_views[p as int].subrange(
                    0,
                    old_views[p as int].len() as int,
                ));
                assert(false);
            }
        }
    }
    let ghost xv = x@;
    v.insert(p, x);
    proof {
        let nv = views(v@);
        assert(nv =~= old_views.insert(p as int, xv));
        assert forall|i: int, j: int| 0 <= i < j < nv.len() implies lex_lt(
            #[trigger] nv[i],
            #[trigger] nv[j],
        ) by {
            if j < p {
                assert(nv[i] == old_views[i] && nv[j] == old_views[j]);
            } else if j == p {
                assert(nv[i] == old_views[i]);
            } else if i == p {
                assert(nv[j] == old_views[j - 1]);
                if j - 1 > p {
                    assert(lex_lt(old_views[p as int], old_views[j - 1]));
                    lemma_lex_transitive(xv, old_views[p as int], old_views[j - 1], 0);
                }
            } else if i < p {
                assert(nv[i] == old_views[i] && nv[j] == old_views[j - 1]);
                if j - 1 >= p {
                    if j - 1 > i {
                    }
                }
            } else {
                assert(nv[i] == old_views[i - 1] && nv[j] == old_views[j - 1]);
            }
        }
        assert(nv.to_set() =~= old_views.to_set().insert(xv)) by {
            assert forall|y: Seq<char>| nv.to_set().contains(y) implies old_views.to_set().insert(
                xv,
            ).contains(y) by {
                let k = choose|k: int| 0 <= k < nv.len() && nv[k] == y;
                if k < p {
                    assert(old_views[k] == y);
                } else if k > p {
                    assert(old_views[k - 1] == y);
                }
            }
            assert forall|y: Seq<char>| old_views.to_set().insert(xv).contains(y) implies nv.to_set().contains(
                y,
            ) by {
                if y == xv {
                    assert(nv[p as int] == y);
                } else {
                    let k = choose|k: int| 0 <= k < old_views.len() && old_views[k] == y;
                    if k < p {
                        assert(nv[k] == y);
                    } else {
                        assert(nv[k + 1] == y);
                    }
                }
            }
        }
    }
}

/// The members of a list with one more element.
pub proof fn lemma_push_to_set(l: Seq<Seq<char>>, x: Seq<char>)
    ensures
        l.push(x).to_set() == l.to_set().insert(x),
{
    let p = l.push(x);
    assert forall|y: Seq<char>| p.to_set().contains(y) implies l.to_set().insert(x).contains(y) by {
        let k = choose|k: int| 0 <= k < p.len() && p[k] == y;
        if k < l.len() {
            assert(l[k] == y);
        }
    }
    assert forall|y: Seq<char>| l.to_set().insert(x).contains(y) implies p.to_set().contains(y) by {
        if y == x {
            assert(p[l.len() as int] == y);
        } else {
            let k = choose|k: int| 0 <= k < l.len() && l[k] == y;
            assert(p[k] == y);
        }
    }
    assert(p.to_set() =~= l.to_set().insert(x));
}

/// The members of two lists joined.
pub proof fn lemma_concat_to_set(a: Seq<Seq<char>>, b: Seq<Seq<char>>)
    ensures
        (a + b).to_set() == a.to_set().union(b.to_set()),
{
    let c = a + b;
    assert forall|y: Seq<char>| c.to_set().contains(y) implies a.to_set().union(b.to_set()).contains(
        y,
    ) by {
        let k = choose|k: int| 0 <= k < c.len() && c[k] == y;
        if k < a.len() {
            assert(a[k] == y);
        } else {
            assert(b[k - a.len()] == y);
        }
    }
    assert forall|y: Seq<char>| a.to_set().union(b.to_set()).contains(y) implies c.to_set().contains(
        y,
    ) by {
        if a.to_set().contains(y) {
            let k = choose|k: int| 0 <= k < a.len() && a[k] == y;
            assert(c[k] == y);
        } else {
            let k = choose|k: int| 0 <= k < b.len() && b[k] == y;
            assert(c[k + a.len()] == y);
        }
    }
    assert(c.to_set() =~= a.to_set().union(b.to_set()));
}

/// The members of `items`, sorted and without repeats, as strings.
pub fn sorted_strings(items: &Vec<Vec<char>>) -> (r: Vec<String>)
    ensures
        r@.map_values(|x: String| x@) == sorted_members(views(items@).to_set()),
{
    let ghost all = views(items@);
    let mut sorted: Vec<Vec<char>> = Vec::new();
    assert(views(sorted@) =~= Seq::<Seq<char>>::empty());
    assert(all.take(0) =~= Seq::<Seq<char>>::empty());
    let mut i: usize = 0;
    while i < items.len()
        invariant
            i <= items.len(),
            all == views(items@),
            strictly_sorted(views(sorted@)),
            views(sorted@).to_set() == all.take(i as int).to_set(),
        decreases items.len() - i,
    {
        proof {
            assert(all.take(i + 1) =~= all.take(i as int).push(items@[i as int]@));
            lemma_push_to_set(all.take(i as int), items@[i as int]@);
        }
        let mut x: Vec<char> = Vec::new();
        crate::text::push_all(&mut x, &items[i]);
        assert(x@ =~= items@[i as int]@);
        insert_sorted(&mut sorted, x);
        i += 1;
    }
    assert(all.take(items.len() as int) =~= all);
    proof {
        lemma_sorted_is_members(views(sorted@));
    }
    let mut out: Vec<String> = Vec::new();
    let mut k: usize = 0;
    assert(out@.map_values(|x: String| x@) =~= views(sorted@).take(0));
    while k < sorted.len()
        invariant
            k <= sorted.len(),
            out@.map_values(|x: String| x@) == views(sorted@).take(k as int),
        decreases sorted.len() - k,
    {
        let x = crate::text::string_of(&sorted[k]);
        assert(x@ == views(sorted@)[k as int]);
        let ghost before = out@.map_values(|x: String| x@);
        out.push(x);
        assert(out@.map_values(|x: String| x@) =~= before.push(x@));
        assert(views(sorted@).take(k + 1) =~= views(sorted@).take(k as int).push(x@));
        k += 1;
    }
    assert(views(sorted@).take(sorted.len() as int) =~= views(sorted@));
    out
}

} // verus!
