//! Blank individuals in loaded ontologies: which IRIs name them, and the rejection of object
//! property assertions that chain blank individuals without end.
use vstd::prelude::*;

use crate::error::Error;
use crate::text::{chars_of, contains, contains_lit, string_of};

verus! {

/// An IRI that names a blank individual: it holds `#_`, `anon`, `/.genid-` or
/// `urn:ontologos:anon:`.
pub open spec fn blank_iri(iri: Seq<char>) -> bool {
    contains(iri, "#_"@) || contains(iri, "anon"@) || contains(iri, "/.genid-"@) || contains(
        iri,
        "urn:ontologos:anon:"@,
    )
}

/// Whether an IRI names a blank individual.
pub fn is_blank_iri(iri: &str) -> (r: bool)
    ensures
        r == blank_iri(iri@),
{
    let s = chars_of(iri);
    contains_lit(&s, "#_") || contains_lit(&s, "anon") || contains_lit(&s, "/.genid-") || contains_lit(
        &s,
        "urn:ontologos:anon:",
    )
}

/// Whether a list of individuals, by their IRIs, holds both a named and a blank one.
pub fn mixes_named_and_blank(iris: &Vec<String>) -> (r: bool)
    ensures
        r == ((exists|i: int| 0 <= i < iris.len() && blank_iri((#[trigger] iris@[i])@)) && (exists|i: int|
            0 <= i < iris.len() && !blank_iri((#[trigger] iris@[i])@))),
{
    let mut named = false;
    let mut blank = false;
    let mut i: usize = 0;
    while i < iris.len()
        invariant
            0 <= i <= iris.len(),
            blank == exists|j: int| 0 <= j < i && blank_iri((#[trigger] iris@[j])@),
            named == exists|j: int| 0 <= j < i && !blank_iri((#[trigger] iris@[j])@),
        decreases iris.len() - i,
    {
        if is_blank_iri(iris[i].as_str()) {
            blank = true;
        } else {
            named = true;
        }
        i += 1;
    }
    named && blank
}

/// Some assertion of `edges` links `a` to `b`.
pub open spec fn links(edges: Seq<(u64, u64)>, a: u64, b: u64) -> bool {
    exists|i: int| 0 <= i < edges.len() && edges[i] == (a, b)
}

/// `s` is a nonempty set of individuals each of which links to one of the set: a chain of
/// assertions that never ends.
pub open spec fn endless_chain(edges: Seq<(u64, u64)>, s: Set<u64>) -> bool {
    &&& exists|x: u64| s.contains(x)
    &&& forall|x: u64| #[trigger] s.contains(x) ==> exists|y: u64| s.contains(y) && links(edges, x, y)
}

/// The assertions chain some individuals without end (for finitely many assertions: they hold a
/// cycle).
pub open spec fn has_endless_chain(edges: Seq<(u64, u64)>) -> bool {
    exists|s: Set<u64>| endless_chain(edges, s)
}

/// The message of the error for a cyclic blank-node chain.
pub open spec fn cyclic_chain_message() -> Seq<char> {
    "cyclic blank-node object property chain"@
}

/// A walk along the assertions that comes back to where it started is an endless chain.
pub proof fn lemma_cycle_is_endless_chain(edges: Seq<(u64, u64)>, walk: Seq<u64>)
    requires
        walk.len() >= 2,
        walk[0] == walk.last(),
        forall|i: int| 0 <= i < walk.len() - 1 ==> links(edges, #[trigger] walk[i], walk[i + 1]),
    ensures
        has_endless_chain(edges),
{
    let s = Set::new(|x: u64| exists|i: int| 0 <= i < walk.len() - 1 && walk[i] == x);
    assert(s.contains(walk[0]));
    assert forall|x: u64| #[trigger] s.contains(x) implies exists|y: u64| s.contains(y) && links(edges, x, y) by {
        let i = choose|i: int| 0 <= i < walk.len() - 1 && walk[i] == x;
        assert(links(edges, walk[i], walk[i + 1]));
        if i + 1 < walk.len() - 1 {
            assert(s.contains(walk[i + 1]));
        } else {
            assert(walk[i + 1] == walk[0]);
            assert(s.contains(walk[i + 1]));
        }
    }
    assert(endless_chain(edges, s));
}

/// Every individual of `done` had all its successors before it when it was added.
pub open spec fn successors_first(edges: Seq<(u64, u64)>, done: Seq<u64>) -> bool {
    forall|k: int, i: int|
        0 <= k < done.len() && 0 <= i < edges.len() && #[trigger] edges[i].0 == #[trigger] done[k]
            ==> exists|j: int| 0 <= j < k && done[j] == edges[i].1
}

proof fn lemma_no_chain_through_done(edges: Seq<(u64, u64)>, done: Seq<u64>, s: Set<u64>, k: int)
    requires
        successors_first(edges, done),
        endless_chain(edges, s),
        0 <= k <= done.len(),
    ensures
        forall|j: int| 0 <= j < k ==> !s.contains(#[trigger] done[j]),
    decreases k,
{
    if k > 0 {
        lemma_no_chain_through_done(edges, done, s, k - 1);
        let v = done[k - 1];
        if s.contains(v) {
            let y = choose|y: u64| s.contains(y) && links(edges, v, y);
            let i = choose|i: int| 0 <= i < edges.len() && edges[i] == (v, y);
            assert(edges[i].0 == done[k - 1]);
            let j = choose|j: int| 0 <= j < k - 1 && done[j] == edges[i].1;
            assert(!s.contains(done[j]));
        }
    }
}

proof fn lemma_len_within(done: Seq<u64>, nodes: Seq<u64>)
    requires
        done.no_duplicates(),
        nodes.no_duplicates(),
        forall|k: int| 0 <= k < done.len() ==> nodes.contains(#[trigger] done[k]),
    ensures
        done.len() <= nodes.len(),
{
    done.unique_seq_to_set();
    nodes.unique_seq_to_set();
    vstd::seq_lib::seq_to_set_is_finite(nodes);
    assert forall|x: u64| done.to_set().contains(x) implies nodes.to_set().contains(x) by {
        let k = choose|k: int| 0 <= k < done.len() && done[k] == x;
        assert(nodes.contains(done[k]));
    }
    vstd::set_lib::lemma_len_subset(done.to_set(), nodes.to_set());
}

/// The individuals left over when no more can be added form an endless chain.
proof fn lemma_stuck_gives_chain(edges: Seq<(u64, u64)>, nodes: Seq<u64>, done: Seq<u64>, q: int)
    requires
        0 <= q < nodes.len(),
        !done.contains(nodes[q]),
        forall|i: int| 0 <= i < edges.len() ==> nodes.contains((#[trigger] edges[i]).0) && nodes.contains(edges[i].1),
        forall|r: int| 0 <= r < nodes.len() && !done.contains(#[trigger] nodes[r]) ==> exists|i: int|
            0 <= i < edges.len() && edges[i].0 == nodes[r] && !done.contains(edges[i].1),
    ensures
        has_endless_chain(edges),
{
    let rest = Set::new(|x: u64| nodes.contains(x) && !done.contains(x));
    assert(rest.contains(nodes[q]));
    assert forall|x: u64| #[trigger] rest.contains(x) implies exists|y: u64| rest.contains(y) && links(edges, x, y) by {
        let r = choose|r: int| 0 <= r < nodes.len() && nodes[r] == x;
        assert(!done.contains(nodes[r]));
        let i = choose|i: int| 0 <= i < edges.len() && edges[i].0 == nodes[r] && !done.contains(edges[i].1);
        let y = edges[i].1;
        assert(nodes.contains(edges[i].1));
        assert(rest.contains(y));
        assert(edges[i] == (x, y));
        assert(links(edges, x, y));
    }
    assert(endless_chain(edges, rest));
}

fn holds_id(v: &Vec<u64>, x: u64) -> (r: bool)
    ensures
        r == v@.contains(x),
{
    let mut i: usize = 0;
    while i < v.len()
        invariant
            0 <= i <= v.len(),
            forall|j: int| 0 <= j < i ==> v@[j] != x,
        decreases v.len() - i,
    {
        if v[i] == x {
            assert(v@[i as int] == x);
            return true;
        }
        i += 1;
    }
    false
}

fn successors_done(edges: &Vec<(u64, u64)>, v: u64, done: &Vec<u64>) -> (r: bool)
    ensures
        r == forall|i: int| 0 <= i < edges.len() && (#[trigger] edges@[i]).0 == v ==> done@.contains(edges@[i].1),
{
    let mut i: usize = 0;
    while i < edges.len()
        invariant
            0 <= i <= edges.len(),
            forall|j: int| 0 <= j < i && (#[trigger] edges@[j]).0 == v ==> done@.contains(edges@[j].1),
        decreases edges.len() - i,
    {
        let (a, b) = edges[i];
        if a == v && !holds_id(done, b) {
            return false;
        }
        i += 1;
    }
    true
}

fn push_new(v: &mut Vec<u64>, x: u64)
    requires
        old(v)@.no_duplicates(),
    ensures
        final(v)@.no_duplicates(),
        final(v)@.contains(x),
        forall|y: u64| #[trigger] final(v)@.contains(y) <==> old(v)@.contains(y) || y == x,
{
    let ghost before = v@;
    if !holds_id(v, x) {
        v.push(x);
        proof {
            assert forall|y: u64| #[trigger] v@.contains(y) <==> before.contains(y) || y == x by {
                vstd::seq_lib::lemma_seq_contains_after_push(before, x, y);
            }
            assert forall|a: int, b: int| 0 <= a < b < v@.len() implies v@[a] != v@[b] by {
                if b == v@.len() - 1 {
                    assert(v@[a] == before[a]);
                }
            }
        }
    }
}

/// The individuals at either end of some assertion, each once.
fn endpoints(edges: &Vec<(u64, u64)>) -> (r: Vec<u64>)
    ensures
        r@.no_duplicates(),
        forall|i: int| 0 <= i < edges.len() ==> r@.contains((#[trigger] edges@[i]).0) && r@.contains(edges@[i].1),
{
    let mut nodes: Vec<u64> = Vec::new();
    let mut i: usize = 0;
    while i < edges.len()
        invariant
            0 <= i <= edges.len(),
            nodes@.no_duplicates(),
            forall|j: int| 0 <= j < i ==> nodes@.contains((#[trigger] edges@[j]).0) && nodes@.contains(edges@[j].1),
        decreases edges.len() - i,
    {
        let (a, b) = edges[i];
        push_new(&mut nodes, a);
        push_new(&mut nodes, b);
        i += 1;
    }
    nodes
}

/// Reject object property assertions between blank individuals that chain them without end.
/// `edges` holds the subject and object of each such assertion.
pub fn check_blank_chains(edges: &Vec<(u64, u64)>) -> (r: Result<(), Error>)
    ensures
        r is Ok <==> !has_endless_chain(edges@),
        r matches Err(e) ==> e matches Error::Parse(m) && m@ == cyclic_chain_message(),
{
    let nodes = endpoints(edges);
    let mut done: Vec<u64> = Vec::new();
    loop
        invariant
            nodes@.no_duplicates(),
            forall|i: int| 0 <= i < edges.len() ==> nodes@.contains((#[trigger] edges@[i]).0) && nodes@.contains(edges@[i].1),
            done@.no_duplicates(),
            forall|k: int| 0 <= k < done.len() ==> nodes@.contains(#[trigger] done@[k]),
            successors_first(edges@, done@),
        ensures
            nodes@.no_duplicates(),
            forall|i: int| 0 <= i < edges.len() ==> nodes@.contains((#[trigger] edges@[i]).0) && nodes@.contains(edges@[i].1),
            successors_first(edges@, done@),
            forall|q: int| 0 <= q < nodes.len() && !done@.contains(#[trigger] nodes@[q]) ==> exists|i: int|
                0 <= i < edges.len() && edges@[i].0 == nodes@[q] && !done@.contains(edges@[i].1),
        decreases nodes.len() - done.len(),
    {
        proof {
            lemma_len_within(done@, nodes@);
        }
        let ghost round = done@;
        let mut progress = false;
        let mut p: usize = 0;
        while p < nodes.len()
            invariant
                0 <= p <= nodes.len(),
                nodes@.no_duplicates(),
                forall|i: int| 0 <= i < edges.len() ==> nodes@.contains((#[trigger] edges@[i]).0) && nodes@.contains(edges@[i].1),
                done@.no_duplicates(),
                forall|k: int| 0 <= k < done.len() ==> nodes@.contains(#[trigger] done@[k]),
                successors_first(edges@, done@),
                progress ==> done.len() > round.len(),
                !progress ==> done@ == round,
                !progress ==> forall|q: int| 0 <= q < p && !done@.contains(#[trigger] nodes@[q]) ==> exists|i: int|
                    0 <= i < edges.len() && edges@[i].0 == nodes@[q] && !done@.contains(edges@[i].1),
                round.len() <= nodes.len(),
            decreases nodes.len() - p,
        {
            let v = nodes[p];
            if !holds_id(&done, v) && successors_done(edges, v, &done) {
                let ghost before = done@;
                done.push(v);
                proof {
                    assert forall|k: int, i: int|
                        0 <= k < done.len() && 0 <= i < edges.len() && #[trigger] edges@[i].0 == #[trigger] done@[k]
                        implies exists|j: int| 0 <= j < k && done@[j] == edges@[i].1 by {
                        if k < before.len() {
                            assert(before[k] == done@[k]);
                            let j = choose|j: int| 0 <= j < k && before[j] == edges@[i].1;
                            assert(done@[j] == before[j]);
                        } else {
                            assert(before.contains(edges@[i].1));
                            let j = choose|j: int| 0 <= j < before.len() && before[j] == edges@[i].1;
                            assert(done@[j] == before[j]);
                        }
                    }
                    assert forall|a: int, b: int| 0 <= a < b < done@.len() implies done@[a] != done@[b] by {
                        if b == done@.len() - 1 {
                            assert(done@[a] == before[a]);
                        }
                    }
                    assert forall|k: int| 0 <= k < done.len() implies nodes@.contains(#[trigger] done@[k]) by {
                        if k < before.len() {
                            assert(done@[k] == before[k]);
                        } else {
                            assert(nodes@[p as int] == v);
                        }
                    }
                }
                progress = true;
            }
            p += 1;
        }
        if !progress {
            break;
        }
        proof {
            lemma_len_within(done@, nodes@);
        }
    }
    let mut q: usize = 0;
    while q < nodes.len()
        invariant
            0 <= q <= nodes.len(),
            forall|j: int| 0 <= j < q ==> done@.contains(#[trigger] nodes@[j]),
            forall|i: int| 0 <= i < edges.len() ==> nodes@.contains((#[trigger] edges@[i]).0) && nodes@.contains(edges@[i].1),
            forall|r: int| 0 <= r < nodes.len() && !done@.contains(#[trigger] nodes@[r]) ==> exists|i: int|
                0 <= i < edges.len() && edges@[i].0 == nodes@[r] && !done@.contains(edges@[i].1),
        decreases nodes.len() - q,
    {
        if !holds_id(&done, nodes[q]) {
            proof {
                lemma_stuck_gives_chain(edges@, nodes@, done@, q as int);
            }
            return Err(Error::Parse(string_of(&chars_of("cyclic blank-node object property chain"))));
        }
        q += 1;
    }
    proof {
        if has_endless_chain(edges@) {
            let s = choose|s: Set<u64>| endless_chain(edges@, s);
            let x = choose|x: u64| s.contains(x);
            let y = choose|y: u64| s.contains(y) && links(edges@, x, y);
            let i = choose|i: int| 0 <= i < edges.len() && edges@[i] == (x, y);
            assert(nodes@.contains(edges@[i].0));
            let r = choose|r: int| 0 <= r < nodes.len() && nodes@[r] == x;
            assert(done@.contains(nodes@[r]));
            let k = choose|k: int| 0 <= k < done.len() && done@[k] == x;
            lemma_no_chain_through_done(edges@, done@, s, done.len() as int);
            assert(!s.contains(done@[k]));
        }
    }
    Ok(())
}

} // verus!
