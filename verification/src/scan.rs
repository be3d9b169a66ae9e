//! Walking the elements of one kind through a document, one whole element at a time.
use vstd::prelude::*;

use crate::complex::{general_block_end, general_block_end_exec};
use crate::text::{find, find_from, lemma_find_from_bounds, opt_int, slice};
use crate::xml::{close_of, open_of, tag_element_end, tagged_end};

verus! {

/// Two strings, as sequences.
pub type PairView = (Seq<char>, Seq<char>);

/// The views of a list of pairs of strings.
pub open spec fn pair_views(v: Seq<(String, String)>) -> Seq<PairView> {
    v.map_values(|p: (String, String)| (p.0@, p.1@))
}

/// The views of a list of strings.
pub open spec fn str_views(v: Seq<String>) -> Seq<Seq<char>> {
    v.map_values(|x: String| x@)
}

/// No item, or one.
pub open spec fn opt_seq<T>(o: Option<T>) -> Seq<T> {
    match o {
        Some(x) => seq![x],
        None => Seq::empty(),
    }
}

/// How the end of an element is found.
#[derive(Clone, Copy)]
pub enum EndRule {
    /// Balancing `<tag` opens against `</tag>` closes, the first open tag counted as open.
    Balanced,
    /// Counting only the elements named `tag`; a self-closing open tag ends there.
    Tagged,
    /// As `Tagged`, and where that finds no end, as `Balanced`.
    TaggedOrBalanced,
}

/// The end of the element named `tag` that opens at `st`, by `rule`.
pub open spec fn kind_end(s: Seq<char>, st: int, tag: Seq<char>, rule: EndRule) -> Option<int> {
    match rule {
        EndRule::Balanced => general_block_end(s, st, tag, close_of(tag)),
        EndRule::Tagged => tagged_end(s, st, tag),
        EndRule::TaggedOrBalanced => match tagged_end(s, st, tag) {
            Some(e) => Some(e),
            None => general_block_end(s, st, tag, close_of(tag)),
        },
    }
}

/// The values `f` gives the elements named `tag` of `s`, from `pos` on: each element is
/// found by its open tag, taken whole, and the walk goes on after it; it stops at the first
/// element that does not end.
pub open spec fn element_walk<T>(
    s: Seq<char>,
    tag: Seq<char>,
    rule: EndRule,
    pos: int,
    f: spec_fn(Seq<char>) -> Option<T>,
) -> Seq<T>
    decreases s.len() - pos,
{
    if pos < 0 || pos >= s.len() {
        Seq::empty()
    } else {
        match find_from(s, pos, open_of(tag)) {
            None => Seq::empty(),
            Some(st) => if st < pos || st >= s.len() {
                Seq::empty()
            } else {
                match kind_end(s, st, tag, rule) {
                    None => Seq::empty(),
                    Some(end) => if end <= st || end > s.len() {
                        Seq::empty()
                    } else {
                        opt_seq(f(s.subrange(st, end))) + element_walk(s, tag, rule, end, f)
                    },
                }
            },
        }
    }
}

/// The end of the element that opens at `st` with `<tag`, balancing it against `</tag>`.
fn balanced_end(s: &Vec<char>, st: usize, tag: &Vec<char>) -> (r: Option<usize>)
    ensures
        opt_int(r) == general_block_end(s@, st as int, tag@, close_of(tag@)),
{
    let mut close: Vec<char> = vec!['<', '/'];
    let mut i: usize = 0;
    while i < tag.len()
        invariant
            i <= tag.len(),
            close@ == seq!['<', '/'] + tag@.subrange(0, i as int),
        decreases tag.len() - i,
    {
        close.push(tag[i]);
        i += 1;
        assert(close@ =~= seq!['<', '/'] + tag@.subrange(0, i as int));
    }
    close.push('>');
    assert(close@ =~= close_of(tag@));
    general_block_end_exec(s, st, tag, &close)
}

/// The end of the element named `tag` opening at `st`, as `kind_end` gives it.
pub fn kind_end_exec(s: &Vec<char>, st: usize, tag: &Vec<char>, rule: EndRule) -> (r: Option<usize>)
    ensures
        opt_int(r) == kind_end(s@, st as int, tag@, rule),
{
    match rule {
        EndRule::Balanced => balanced_end(s, st, tag),
        EndRule::Tagged => tag_element_end(s, st, tag),
        EndRule::TaggedOrBalanced => match tag_element_end(s, st, tag) {
            Some(e) => Some(e),
            None => balanced_end(s, st, tag),
        },
    }
}

/// Walk the elements named `tag` of `s` and collect what `f` gives each, as `element_walk`
/// says with `sf`, the statement of what `f` computes.
pub(crate) fn collect_elements<T: View, F: Fn(&Vec<char>) -> Option<T>>(
    s: &Vec<char>,
    tag: &Vec<char>,
    rule: EndRule,
    f: F,
    Ghost(sf): Ghost<spec_fn(Seq<char>) -> Option<T::V>>,
) -> (r: Vec<T>)
    requires
        forall|b: &Vec<char>| #[trigger] f.requires((b,)),
        forall|b: &Vec<char>, x: Option<T>|
            #[trigger] f.ensures((b,), x) ==> match x {
                Some(v) => sf(b@) == Some(v@),
                None => sf(b@) is None,
            },
    ensures
        r@.map_values(|x: T| x@) == element_walk(s@, tag@, rule, 0, sf),
{
    let mut open: Vec<char> = vec!['<'];
    let mut i: usize = 0;
    while i < tag.len()
        invariant
            i <= tag.len(),
            open@ == seq!['<'] + tag@.subrange(0, i as int),
        decreases tag.len() - i,
    {
        open.push(tag[i]);
        i += 1;
        assert(open@ =~= seq!['<'] + tag@.subrange(0, i as int));
    }
    assert(open@ =~= open_of(tag@));
    let mut out: Vec<T> = Vec::new();
    let mut pos: usize = 0;
    assert(out@.map_values(|x: T| x@) =~= Seq::<T::V>::empty());
    while pos < s.len()
        invariant
            open@ == open_of(tag@),
            forall|b: &Vec<char>| #[trigger] f.requires((b,)),
            forall|b: &Vec<char>, x: Option<T>|
                #[trigger] f.ensures((b,), x) ==> match x {
                    Some(v) => sf(b@) == Some(v@),
                    None => sf(b@) is None,
                },
            out@.map_values(|x: T| x@) + element_walk(s@, tag@, rule, pos as int, sf)
                == element_walk(s@, tag@, rule, 0, sf),
        decreases s.len() - pos,
    {
        let ghost before = out@.map_values(|x: T| x@);
        let st = match find(s, pos, &open) {
            None => {
                assert(before =~= before + Seq::<T::V>::empty());
                return out;
            },
            Some(st) => st,
        };
        proof {
            lemma_find_from_bounds(s@, pos as int, open@);
        }
        if st >= s.len() {
            assert(before =~= before + Seq::<T::V>::empty());
            return out;
        }
        let end = match kind_end_exec(s, st, tag, rule) {
            None => {
                assert(before =~= before + Seq::<T::V>::empty());
                return out;
            },
            Some(e) => e,
        };
        if end <= st || end > s.len() {
            assert(before =~= before + Seq::<T::V>::empty());
            return out;
        }
        let block = slice(s, st, end);
        let got = f(&block);
        match got {
            Some(v) => {
                let ghost vv = v@;
                out.push(v);
                assert(out@.map_values(|x: T| x@) =~= before + seq![vv]);
            },
            None => {
                assert(out@.map_values(|x: T| x@) =~= before + Seq::<T::V>::empty());
            },
        }
        proof {
            assert(out@.map_values(|x: T| x@) + element_walk(s@, tag@, rule, end as int, sf)
                =~= before + element_walk(s@, tag@, rule, pos as int, sf));
        }
        pos = end;
    }
    let ghost fin = out@.map_values(|x: T| x@);
    assert(fin =~= fin + element_walk(s@, tag@, rule, pos as int, sf));
    out
}

/// As `element_walk`, with any number of values for each element.
pub open spec fn element_walk_many<T>(
    s: Seq<char>,
    tag: Seq<char>,
    rule: EndRule,
    pos: int,
    f: spec_fn(Seq<char>) -> Seq<T>,
) -> Seq<T>
    decreases s.len() - pos,
{
    if pos < 0 || pos >= s.len() {
        Seq::empty()
    } else {
        match find_from(s, pos, open_of(tag)) {
            None => Seq::empty(),
            Some(st) => if st < pos || st >= s.len() {
                Seq::empty()
            } else {
                match kind_end(s, st, tag, rule) {
                    None => Seq::empty(),
                    Some(end) => if end <= st || end > s.len() {
                        Seq::empty()
                    } else {
                        f(s.subrange(st, end)) + element_walk_many(s, tag, rule, end, f)
                    },
                }
            },
        }
    }
}

/// Walk the elements named `tag` of `s` and collect all that `f` gives each, as
/// `element_walk_many` says with `sf`.
pub(crate) fn collect_elements_many<T: View, F: Fn(&Vec<char>) -> Vec<T>>(
    s: &Vec<char>,
    tag: &Vec<char>,
    rule: EndRule,
    f: F,
    Ghost(sf): Ghost<spec_fn(Seq<char>) -> Seq<T::V>>,
) -> (r: Vec<T>)
    requires
        forall|b: &Vec<char>| #[trigger] f.requires((b,)),
        forall|b: &Vec<char>, x: Vec<T>|
            #[trigger] f.ensures((b,), x) ==> x@.map_values(|v: T| v@) == sf(b@),
    ensures
        r@.map_values(|x: T| x@) == element_walk_many(s@, tag@, rule, 0, sf),
{
    let mut open: Vec<char> = vec!['<'];
    let mut i: usize = 0;
    while i < tag.len()
        invariant
            i <= tag.len(),
            open@ == seq!['<'] + tag@.subrange(0, i as int),
        decreases tag.len() - i,
    {
        open.push(tag[i]);
        i += 1;
        assert(open@ =~= seq!['<'] + tag@.subrange(0, i as int));
    }
    assert(open@ =~= open_of(tag@));
    let mut out: Vec<T> = Vec::new();
    let mut pos: usize = 0;
    assert(out@.map_values(|x: T| x@) =~= Seq::<T::V>::empty());
    while pos < s.len()
        invariant
            open@ == open_of(tag@),
            forall|b: &Vec<char>| #[trigger] f.requires((b,)),
            forall|b: &Vec<char>, x: Vec<T>|
                #[trigger] f.ensures((b,), x) ==> x@.map_values(|v: T| v@) == sf(b@),
            out@.map_values(|x: T| x@) + element_walk_many(s@, tag@, rule, pos as int, sf)
                == element_walk_many(s@, tag@, rule, 0, sf),
        decreases s.len() - pos,
    {
        let ghost before = out@.map_values(|x: T| x@);
        let st = match find(s, pos, &open) {
            None => {
                assert(before =~= before + Seq::<T::V>::empty());
                return out;
            },
            Some(st) => st,
        };
        proof {
            lemma_find_from_bounds(s@, pos as int, open@);
        }
        if st >= s.len() {
            assert(before =~= before + Seq::<T::V>::empty());
            return out;
        }
        let end = match kind_end_exec(s, st, tag, rule) {
            None => {
                assert(before =~= before + Seq::<T::V>::empty());
                return out;
            },
            Some(e) => e,
        };
        if end <= st || end > s.len() {
            assert(before =~= before + Seq::<T::V>::empty());
            return out;
        }
        let block = slice(s, st, end);
        let mut got = f(&block);
        let ghost gv = got@.map_values(|v: T| v@);
        out.append(&mut got);
        assert(out@.map_values(|x: T| x@) =~= before + gv);
        proof {
            assert(out@.map_values(|x: T| x@) + element_walk_many(s@, tag@, rule, end as int, sf)
                =~= before + element_walk_many(s@, tag@, rule, pos as int, sf));
        }
        pos = end;
    }
    let ghost fin = out@.map_values(|x: T| x@);
    assert(fin =~= fin + element_walk_many(s@, tag@, rule, pos as int, sf));
    out
}

} // verus!
