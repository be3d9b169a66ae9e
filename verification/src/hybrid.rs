//! Hybrid routing: the split of an ontology's axioms into an EL-safe part and a DL residue
//! closed under shared classes, and the engine each part is routed to.
use vstd::prelude::*;

use crate::profile::OwlProfile;
use crate::ids::views;
use crate::iri_set::{sorted_members, sorted_strings};
use crate::scan::str_views;
use crate::text::chars_of;
use crate::constructs::{
    blocks_el_classification, el_classification_forbidden_in, lemma_nothing_picked_iff_none_picks,
    ConstructRule, OwlConstruct,
};

verus! {

/// An axiom as the hybrid partition reads it: its id, the constructs it uses and the class
/// entities of its signature.
pub struct ModuleAxiom {
    /// The axiom's id.
    pub id: u64,
    /// The constructs the axiom uses.
    pub constructs: Vec<OwlConstruct>,
    /// The class entities in the axiom's signature.
    pub classes: Vec<u64>,
    /// The IRIs of those classes.
    pub class_iris: Vec<String>,
}

/// The axiom uses a construct that the EL completion engine cannot classify.
pub open spec fn requires_dl(a: ModuleAxiom) -> bool {
    exists|j: int| 0 <= j < a.constructs@.len() && blocks_el_classification(#[trigger] a.constructs@[j])
}

/// Some class occurs in both sequences.
pub open spec fn meets(a: Seq<u64>, b: Seq<u64>) -> bool {
    exists|c: u64| #[trigger] a.contains(c) && b.contains(c)
}

/// Two axioms mention a common class.
pub open spec fn share_class(a: ModuleAxiom, b: ModuleAxiom) -> bool {
    meets(a.classes@, b.classes@)
}

/// `s` holds every axiom that requires DL, and with any axiom every axiom sharing a class with it.
pub open spec fn closed_residue(axs: Seq<ModuleAxiom>, s: Set<int>) -> bool {
    &&& forall|i: int| 0 <= i < axs.len() && requires_dl(#[trigger] axs[i]) ==> s.contains(i)
    &&& forall|i: int, j: int|
        0 <= i < axs.len() && 0 <= j < axs.len() && #[trigger] s.contains(i) && #[trigger] share_class(
            axs[i],
            axs[j],
        ) ==> s.contains(j)
}

/// Axiom `i` belongs to the DL residue: the least set closed as above holds it.
pub open spec fn in_dl_residue(axs: Seq<ModuleAxiom>, i: int) -> bool {
    forall|s: Set<int>| #[trigger] closed_residue(axs, s) ==> s.contains(i)
}

/// `el` and `dl` split the positions of `axs`: `el` lists, in order, the axioms outside the DL
/// residue; `dl` lists each residue axiom once, those that require DL first and in order.
pub open spec fn residue_partition(axs: Seq<ModuleAxiom>, el: Seq<usize>, dl: Seq<usize>) -> bool {
    &&& forall|k: int| 0 <= k < el.len() ==> el[k] < axs.len() && !in_dl_residue(axs, #[trigger] el[k] as int)
    &&& forall|k1: int, k2: int| 0 <= k1 < k2 < el.len() ==> el[k1] < el[k2]
    &&& forall|i: int| 0 <= i < axs.len() && !in_dl_residue(axs, i) ==> el.contains(i as usize)
    &&& dl.no_duplicates()
    &&& forall|k: int| 0 <= k < dl.len() ==> dl[k] < axs.len() && in_dl_residue(axs, #[trigger] dl[k] as int)
    &&& forall|i: int| 0 <= i < axs.len() && in_dl_residue(axs, i) ==> dl.contains(i as usize)
    &&& seeds_first(axs, dl)
}

/// The ids of the axioms at the given positions.
pub open spec fn ids_at(axs: Seq<ModuleAxiom>, idx: Seq<usize>) -> Seq<u64> {
    idx.map_values(|k: usize| axs[k as int].id)
}

fn axiom_requires_dl(a: &ModuleAxiom) -> (r: bool)
    ensures
        r == requires_dl(*a),
{
    let blockers = el_classification_forbidden_in(&a.constructs);
    proof {
        lemma_nothing_picked_iff_none_picks(ConstructRule::BlocksElClassification, a.constructs@);
    }
    blockers.len() > 0
}

fn has_class(classes: &Vec<u64>, c: u64) -> (r: bool)
    ensures
        r == classes@.contains(c),
{
    let mut i: usize = 0;
    while i < classes.len()
        invariant
            0 <= i <= classes.len(),
            forall|j: int| 0 <= j < i ==> classes@[j] != c,
        decreases classes.len() - i,
    {
        if classes[i] == c {
            assert(classes@[i as int] == c);
            return true;
        }
        i += 1;
    }
    false
}

fn meets_classes(a: &Vec<u64>, b: &Vec<u64>) -> (r: bool)
    ensures
        r == meets(a@, b@),
{
    let mut i: usize = 0;
    while i < a.len()
        invariant
            0 <= i <= a.len(),
            forall|j: int| 0 <= j < i ==> !b@.contains(#[trigger] a@[j]),
        decreases a.len() - i,
    {
        if has_class(b, a[i]) {
            assert(a@.contains(a@[i as int]));
            return true;
        }
        i += 1;
    }
    proof {
        if meets(a@, b@) {
            let c = choose|c: u64| #[trigger] a@.contains(c) && b@.contains(c);
            let j = choose|j: int| 0 <= j < a@.len() && a@[j] == c;
            assert(!b@.contains(a@[j]));
        }
    }
    false
}

fn add_classes(into: &mut Vec<u64>, classes: &Vec<u64>)
    ensures
        forall|c: u64| #[trigger] final(into)@.contains(c) <==> old(into)@.contains(c) || classes@.contains(c),
{
    let ghost start = into@;
    let mut i: usize = 0;
    while i < classes.len()
        invariant
            0 <= i <= classes.len(),
            forall|c: u64|
                #[trigger] into@.contains(c) <==> start.contains(c) || classes@.take(i as int).contains(c),
        decreases classes.len() - i,
    {
        let ghost before = into@;
        let c = classes[i];
        into.push(c);
        proof {
            assert forall|d: u64| #[trigger] into@.contains(d) <==> start.contains(d) || classes@.take(i + 1).contains(d) by {
                vstd::seq_lib::lemma_seq_contains_after_push(before, c, d);
                assert(classes@.take(i + 1) =~= classes@.take(i as int).push(c));
                vstd::seq_lib::lemma_seq_contains_after_push(classes@.take(i as int), c, d);
            }
        }
        i += 1;
    }
    assert(classes@.take(classes.len() as int) =~= classes@);
}

/// Every residue axiom that requires DL comes before those that do not, in order.
pub open spec fn seeds_first(axs: Seq<ModuleAxiom>, dl: Seq<usize>) -> bool {
    forall|k1: int, k2: int|
        #![trigger dl[k1], dl[k2]]
        0 <= k1 < k2 < dl.len() && requires_dl(axs[dl[k2] as int]) ==> requires_dl(axs[dl[k1] as int])
            && dl[k1] < dl[k2]
}

proof fn lemma_seeds_first_push(axs: Seq<ModuleAxiom>, dl: Seq<usize>, x: usize)
    requires
        seeds_first(axs, dl),
        0 <= x < axs.len(),
        !requires_dl(axs[x as int]),
    ensures
        seeds_first(axs, dl.push(x)),
{
    let d = dl.push(x);
    assert forall|k1: int, k2: int|
        #![trigger d[k1], d[k2]]
        0 <= k1 < k2 < d.len() && requires_dl(axs[d[k2] as int]) implies requires_dl(axs[d[k1] as int])
            && d[k1] < d[k2] by {
        assert(d[k1] == dl[k1]);
        if k2 == dl.len() {
            assert(d[k2] == x);
        } else {
            assert(d[k2] == dl[k2]);
        }
    }
}

proof fn lemma_seeds_first_push_seed(axs: Seq<ModuleAxiom>, dl: Seq<usize>, x: usize)
    requires
        0 <= x < axs.len(),
        requires_dl(axs[x as int]),
        seeds_first(axs, dl),
        forall|k: int| 0 <= k < dl.len() ==> dl[k] < x && requires_dl(#[trigger] axs[dl[k] as int]),
    ensures
        seeds_first(axs, dl.push(x)),
{
    let d = dl.push(x);
    assert forall|k1: int, k2: int|
        #![trigger d[k1], d[k2]]
        0 <= k1 < k2 < d.len() && requires_dl(axs[d[k2] as int]) implies requires_dl(axs[d[k1] as int])
            && d[k1] < d[k2] by {
        assert(d[k1] == dl[k1]);
        assert(requires_dl(axs[dl[k1] as int]));
        if k2 < dl.len() {
            assert(d[k2] == dl[k2]);
        } else {
            assert(d[k2] == x);
        }
    }
}

/// Every axiom that requires DL lies in the residue.
proof fn lemma_seed_in_residue(axs: Seq<ModuleAxiom>, i: int)
    requires
        0 <= i < axs.len(),
        requires_dl(axs[i]),
    ensures
        in_dl_residue(axs, i),
{
    assert forall|s: Set<int>| #[trigger] closed_residue(axs, s) implies s.contains(i) by {}
}

/// An axiom sharing a class with a residue axiom lies in the residue.
proof fn lemma_neighbour_in_residue(axs: Seq<ModuleAxiom>, i: int, j: int)
    requires
        0 <= i < axs.len(),
        0 <= j < axs.len(),
        in_dl_residue(axs, i),
        share_class(axs[i], axs[j]),
    ensures
        in_dl_residue(axs, j),
{
    assert forall|s: Set<int>| #[trigger] closed_residue(axs, s) implies s.contains(j) by {
        assert(s.contains(i));
    }
}

/// Split the axioms into an EL-safe part and a DL residue: the axioms that require DL, closed
/// under sharing a class. Returns the positions of both parts.
/// Axiom `x` shares a class with an axiom at one of the positions `dl`.
pub open spec fn joins_residue(axs: Seq<ModuleAxiom>, dl: Seq<usize>, x: int) -> bool {
    exists|k: int| 0 <= k < dl.len() && #[trigger] share_class(axs[dl[k] as int], axs[x])
}

/// One round from position `x` on: each axiom not yet among `dl` that shares a class with one of
/// them joins them at the end, in position order, the residue growing as the round goes.
pub open spec fn round_from(axs: Seq<ModuleAxiom>, dl: Seq<usize>, x: int) -> Seq<usize>
    decreases axs.len() - x,
{
    if x < 0 || x >= axs.len() {
        dl
    } else {
        round_from(
            axs,
            if !dl.contains(x as usize) && joins_residue(axs, dl, x) {
                dl.push(x as usize)
            } else {
                dl
            },
            x + 1,
        )
    }
}

/// Rounds repeated, at most `fuel` times, until one adds nothing.
pub open spec fn rounds(axs: Seq<ModuleAxiom>, dl: Seq<usize>, fuel: nat) -> Seq<usize>
    decreases fuel,
{
    if fuel == 0 {
        dl
    } else {
        let next = round_from(axs, dl, 0);
        if next.len() == dl.len() {
            dl
        } else {
            rounds(axs, next, (fuel - 1) as nat)
        }
    }
}

/// The positions before `i` of the axioms that require DL, in order.
pub open spec fn seeds_upto(axs: Seq<ModuleAxiom>, i: int) -> Seq<usize>
    decreases i,
{
    if i <= 0 {
        Seq::empty()
    } else if requires_dl(axs[i - 1]) {
        seeds_upto(axs, i - 1).push((i - 1) as usize)
    } else {
        seeds_upto(axs, i - 1)
    }
}

/// The positions before `i` that are not among `dl`, in order.
pub open spec fn outside_upto(dl: Seq<usize>, i: int) -> Seq<usize>
    decreases i,
{
    if i <= 0 {
        Seq::empty()
    } else if !dl.contains((i - 1) as usize) {
        outside_upto(dl, i - 1).push((i - 1) as usize)
    } else {
        outside_upto(dl, i - 1)
    }
}

/// The DL residue in the order it is built: the axioms that require DL, in position order, then
/// each round's newcomers in position order.
pub open spec fn residue_order(axs: Seq<ModuleAxiom>) -> Seq<usize> {
    rounds(axs, seeds_upto(axs, axs.len() as int), axs.len())
}

/// The EL-safe positions, in order.
pub open spec fn el_order(axs: Seq<ModuleAxiom>) -> Seq<usize> {
    outside_upto(residue_order(axs), axs.len() as int)
}

proof fn lemma_meets_iff_joins(axs: Seq<ModuleAxiom>, dl: Seq<usize>, classes: Seq<u64>, x: int)
    requires
        0 <= x < axs.len(),
        forall|k: int| 0 <= k < dl.len() ==> dl[k] < axs.len(),
        forall|c: u64|
            #[trigger] classes.contains(c) <==> exists|k: int|
                0 <= k < dl.len() && (#[trigger] axs[dl[k] as int]).classes@.contains(c),
    ensures
        meets(axs[x].classes@, classes) == joins_residue(axs, dl, x),
{
    if meets(axs[x].classes@, classes) {
        let c = choose|c: u64| #[trigger] axs[x].classes@.contains(c) && classes.contains(c);
        let k = choose|k: int| 0 <= k < dl.len() && (#[trigger] axs[dl[k] as int]).classes@.contains(c);
        assert(share_class(axs[dl[k] as int], axs[x]));
    }
    if joins_residue(axs, dl, x) {
        let k = choose|k: int| 0 <= k < dl.len() && #[trigger] share_class(axs[dl[k] as int], axs[x]);
        let c = choose|c: u64| #[trigger] axs[dl[k] as int].classes@.contains(c) && axs[x].classes@.contains(c);
        assert(classes.contains(c));
        assert(axs[x].classes@.contains(c));
    }
}


fn partition_positions(axioms: &Vec<ModuleAxiom>) -> (r: (Vec<usize>, Vec<usize>))
    ensures
        residue_partition(axioms@, r.0@, r.1@),
        r.1@ == residue_order(axioms@),
        r.0@ == el_order(axioms@),
{
    let n = axioms.len();
    let ghost axs = axioms@;
    let mut in_dl: Vec<bool> = Vec::new();
    let mut dl: Vec<usize> = Vec::new();
    let mut dl_classes: Vec<u64> = Vec::new();
    let ghost mut dl_set: Set<int> = Set::empty();
    let mut i: usize = 0;
    while i < n
        invariant
            n == axioms.len(),
            axs == axioms@,
            0 <= i <= n,
            in_dl.len() == i,
            dl@ == seeds_upto(axs, i as int),
            forall|k: int| 0 <= k < dl.len() ==> dl@[k] < i && in_dl@[#[trigger] dl@[k] as int],
            forall|x: int| 0 <= x < i && #[trigger] in_dl@[x] ==> dl@.contains(x as usize),
            dl@.no_duplicates(),
            dl_set.finite(),
            dl_set.len() == dl.len(),
            forall|x: int| #[trigger] dl_set.contains(x) <==> 0 <= x < i && in_dl@[x],
            forall|k: int| 0 <= k < dl.len() ==> in_dl_residue(axs, #[trigger] dl@[k] as int),
            forall|x: int| 0 <= x < i ==> (requires_dl(#[trigger] axs[x]) <==> in_dl@[x]),
            seeds_first(axs, dl@),
            forall|c: u64|
                #[trigger] dl_classes@.contains(c) <==> exists|k: int|
                    0 <= k < dl.len() && (#[trigger] axs[dl@[k] as int]).classes@.contains(c),
        decreases n - i,
    {
        if axiom_requires_dl(&axioms[i]) {
            proof {
                lemma_seed_in_residue(axs, i as int);
                lemma_seeds_first_push_seed(axs, dl@, i);
            }
            let ghost old_dl = dl@;
            let ghost old_classes = dl_classes@;
            in_dl.push(true);
            dl.push(i);
            add_classes(&mut dl_classes, &axioms[i].classes);
            proof {
                assert(!dl_set.contains(i as int));
                dl_set = dl_set.insert(i as int);
                assert forall|x: int| 0 <= x < i + 1 && #[trigger] in_dl@[x] implies dl@.contains(x as usize) by {
                    if x < i {
                        assert(old_dl.contains(x as usize));
                        let k = choose|k: int| 0 <= k < old_dl.len() && old_dl[k] == x as usize;
                        assert(dl@[k] == x as usize);
                    } else {
                        assert(dl@[dl.len() - 1] == x as usize);
                    }
                }
                assert forall|c: u64| #[trigger] dl_classes@.contains(c) <==> exists|k: int|
                    0 <= k < dl.len() && (#[trigger] axs[dl@[k] as int]).classes@.contains(c) by {
                    if old_classes.contains(c) {
                        let k = choose|k: int| 0 <= k < old_dl.len() && (#[trigger] axs[old_dl[k] as int]).classes@.contains(c);
                        assert(dl@[k] == old_dl[k]);
                    }
                    if axioms@[i as int].classes@.contains(c) {
                        assert(dl@[dl.len() - 1] == i);
                    }
                    if exists|k: int| 0 <= k < dl.len() && (#[trigger] axs[dl@[k] as int]).classes@.contains(c) {
                        let k = choose|k: int| 0 <= k < dl.len() && (#[trigger] axs[dl@[k] as int]).classes@.contains(c);
                        if k < old_dl.len() {
                            assert(dl@[k] == old_dl[k]);
                        }
                    }
                }
            }
        } else {
            in_dl.push(false);
        }
        i += 1;
    }
    proof {
        vstd::set_lib::lemma_int_range(0, n as int);
        assert(dl_set.subset_of(vstd::set_lib::set_int_range(0, n as int)));
        vstd::set_lib::lemma_len_subset(dl_set, vstd::set_lib::set_int_range(0, n as int));
    }
    let ghost mut fuel: nat = n as nat;
    loop
        invariant
            rounds(axs, dl@, fuel) == residue_order(axs),
            fuel + dl.len() >= n,
            n == axioms.len(),
            axs == axioms@,
            in_dl.len() == n,
            forall|k: int| 0 <= k < dl.len() ==> dl@[k] < n && in_dl@[#[trigger] dl@[k] as int],
            forall|x: int| 0 <= x < n && #[trigger] in_dl@[x] ==> dl@.contains(x as usize),
            dl@.no_duplicates(),
            dl_set.finite(),
            dl_set.len() == dl.len(),
            dl.len() <= n,
            forall|x: int| #[trigger] dl_set.contains(x) <==> 0 <= x < n && in_dl@[x],
            forall|k: int| 0 <= k < dl.len() ==> in_dl_residue(axs, #[trigger] dl@[k] as int),
            forall|x: int| 0 <= x < n && requires_dl(#[trigger] axs[x]) ==> in_dl@[x],
            seeds_first(axs, dl@),
            forall|c: u64|
                #[trigger] dl_classes@.contains(c) <==> exists|k: int|
                    0 <= k < dl.len() && (#[trigger] axs[dl@[k] as int]).classes@.contains(c),
        ensures
            in_dl.len() == n,
            dl_set.finite(),
            forall|k: int| 0 <= k < dl.len() ==> dl@[k] < n && in_dl@[#[trigger] dl@[k] as int],
            forall|x: int| 0 <= x < n && #[trigger] in_dl@[x] ==> dl@.contains(x as usize),
            dl@.no_duplicates(),
            forall|x: int| #[trigger] dl_set.contains(x) <==> 0 <= x < n && in_dl@[x],
            forall|k: int| 0 <= k < dl.len() ==> in_dl_residue(axs, #[trigger] dl@[k] as int),
            seeds_first(axs, dl@),
            closed_residue(axs, dl_set),
            dl@ == residue_order(axs),
        decreases n - dl.len(),
    {
        let ghost round_len = dl.len();
        let ghost start = dl@;
        let mut moved = false;
        let mut x: usize = 0;
        while x < n
            invariant
                n == axioms.len(),
                axs == axioms@,
                0 <= x <= n,
                in_dl.len() == n,
                forall|k: int| 0 <= k < dl.len() ==> dl@[k] < n && in_dl@[#[trigger] dl@[k] as int],
                forall|y: int| 0 <= y < n && #[trigger] in_dl@[y] ==> dl@.contains(y as usize),
                dl@.no_duplicates(),
                dl_set.finite(),
                dl_set.len() == dl.len(),
                forall|y: int| #[trigger] dl_set.contains(y) <==> 0 <= y < n && in_dl@[y],
                forall|k: int| 0 <= k < dl.len() ==> in_dl_residue(axs, #[trigger] dl@[k] as int),
                forall|y: int| 0 <= y < n && requires_dl(#[trigger] axs[y]) ==> in_dl@[y],
                seeds_first(axs, dl@),
                forall|c: u64|
                    #[trigger] dl_classes@.contains(c) <==> exists|k: int|
                        0 <= k < dl.len() && (#[trigger] axs[dl@[k] as int]).classes@.contains(c),
                dl.len() <= n,
                moved ==> dl.len() > round_len,
                !moved ==> dl.len() == round_len,
                !moved ==> dl@ == start,
                start.len() == round_len,
                round_from(axs, start, 0) == round_from(axs, dl@, x as int),
                !moved ==> forall|y: int|
                    0 <= y < x && !#[trigger] in_dl@[y] ==> !meets(axs[y].classes@, dl_classes@),
            decreases n - x,
        {
            proof {
                lemma_meets_iff_joins(axs, dl@, dl_classes@, x as int);
                assert(in_dl@[x as int] == dl@.contains(x)) by {
                    if dl@.contains(x) {
                        let m = choose|m: int| 0 <= m < dl.len() && dl@[m] == x;
                        assert(in_dl@[dl@[m] as int]);
                    }
                }
            }
            let ghost before_step = dl@;
            if !in_dl[x] && meets_classes(&axioms[x].classes, &dl_classes) {
                proof {
                    let c = choose|c: u64| #[trigger] axs[x as int].classes@.contains(c) && dl_classes@.contains(c);
                    let k = choose|k: int| 0 <= k < dl.len() && (#[trigger] axs[dl@[k] as int]).classes@.contains(c);
                    assert(share_class(axs[dl@[k] as int], axs[x as int]));
                    lemma_neighbour_in_residue(axs, dl@[k] as int, x as int);
                    assert(!dl@.contains(x)) by {
                        if dl@.contains(x) {
                            let m = choose|m: int| 0 <= m < dl.len() && dl@[m] == x;
                            assert(in_dl@[dl@[m] as int]);
                        }
                    }
                    assert(!dl_set.contains(x as int));
                    vstd::set_lib::lemma_int_range(0, n as int);
                    assert(dl_set.insert(x as int).subset_of(vstd::set_lib::set_int_range(0, n as int)));
                    vstd::set_lib::lemma_len_subset(
                        dl_set.insert(x as int),
                        vstd::set_lib::set_int_range(0, n as int),
                    );
                }
                let ghost old_dl = dl@;
                let ghost old_classes = dl_classes@;
                let ghost old_in = in_dl@;
                in_dl.set(x, true);
                dl.push(x);
                add_classes(&mut dl_classes, &axioms[x].classes);
                moved = true;
                proof {
                    dl_set = dl_set.insert(x as int);
                    assert forall|k: int| 0 <= k < dl.len() implies dl@[k] < n && in_dl@[#[trigger] dl@[k] as int] by {
                        if k < old_dl.len() {
                            assert(dl@[k] == old_dl[k]);
                            assert(old_in[old_dl[k] as int]);
                        }
                    }
                    assert forall|y: int| 0 <= y < n && #[trigger] in_dl@[y] implies dl@.contains(y as usize) by {
                        if y != x {
                            assert(old_in[y]);
                            let k = choose|k: int| 0 <= k < old_dl.len() && old_dl[k] == y as usize;
                            assert(dl@[k] == y as usize);
                        } else {
                            assert(dl@[dl.len() - 1] == y as usize);
                        }
                    }
                    lemma_seeds_first_push(axs, old_dl, x);
                    assert forall|c: u64| #[trigger] dl_classes@.contains(c) <==> exists|k: int|
                        0 <= k < dl.len() && (#[trigger] axs[dl@[k] as int]).classes@.contains(c) by {
                        if old_classes.contains(c) {
                            let k = choose|k: int| 0 <= k < old_dl.len() && (#[trigger] axs[old_dl[k] as int]).classes@.contains(c);
                            assert(dl@[k] == old_dl[k]);
                        }
                        if axioms@[x as int].classes@.contains(c) {
                            assert(dl@[dl.len() - 1] == x);
                        }
                        if exists|k: int| 0 <= k < dl.len() && (#[trigger] axs[dl@[k] as int]).classes@.contains(c) {
                            let k = choose|k: int| 0 <= k < dl.len() && (#[trigger] axs[dl@[k] as int]).classes@.contains(c);
                            if k < old_dl.len() {
                                assert(dl@[k] == old_dl[k]);
                            }
                        }
                    }
                }
            }
            assert(round_from(axs, before_step, x as int) == round_from(axs, dl@, x + 1));
            x += 1;
        }
        assert(round_from(axs, dl@, n as int) == dl@);
        if moved {
            proof {
                assert(fuel > 0);
                assert(rounds(axs, start, fuel) == rounds(axs, dl@, (fuel - 1) as nat));
                fuel = (fuel - 1) as nat;
            }
        }
        if !moved {
            assert(rounds(axs, start, fuel) == start);
            proof {
                assert forall|a: int, b: int|
                    0 <= a < axs.len() && 0 <= b < axs.len() && #[trigger] dl_set.contains(a) && #[trigger] share_class(
                        axs[a],
                        axs[b],
                    ) implies dl_set.contains(b) by {
                    if !in_dl@[b] {
                        let c = choose|c: u64| #[trigger] axs[a].classes@.contains(c) && axs[b].classes@.contains(c);
                        assert(dl@.contains(a as usize));
                        let k = choose|k: int| 0 <= k < dl.len() && dl@[k] == a as usize;
                        assert(axs[dl@[k] as int].classes@.contains(c));
                        assert(dl_classes@.contains(c));
                        assert(axs[b].classes@.contains(c));
                        assert(meets(axs[b].classes@, dl_classes@));
                    }
                }
            }
            break;
        }
    }
    let mut el: Vec<usize> = Vec::new();
    let mut y: usize = 0;
    while y < n
        invariant
            n == axioms.len(),
            axs == axioms@,
            0 <= y <= n,
            in_dl.len() == n,
            forall|k: int| 0 <= k < el.len() ==> el@[k] < y && !in_dl@[#[trigger] el@[k] as int],
            forall|k1: int, k2: int| 0 <= k1 < k2 < el.len() ==> el@[k1] < el@[k2],
            forall|z: int| 0 <= z < y && !#[trigger] in_dl@[z] ==> el@.contains(z as usize),
            el@ == outside_upto(dl@, y as int),
            forall|k: int| 0 <= k < dl.len() ==> dl@[k] < n && in_dl@[#[trigger] dl@[k] as int],
            forall|x: int| 0 <= x < n && #[trigger] in_dl@[x] ==> dl@.contains(x as usize),
        decreases n - y,
    {
        proof {
            assert(in_dl@[y as int] == dl@.contains(y)) by {
                if dl@.contains(y) {
                    let m = choose|m: int| 0 <= m < dl.len() && dl@[m] == y;
                    assert(in_dl@[dl@[m] as int]);
                }
            }
        }
        if !in_dl[y] {
            let ghost old_el = el@;
            el.push(y);
            proof {
                assert forall|z: int| 0 <= z < y + 1 && !#[trigger] in_dl@[z] implies el@.contains(z as usize) by {
                    if z < y {
                        let k = choose|k: int| 0 <= k < old_el.len() && old_el[k] == z as usize;
                        assert(el@[k] == z as usize);
                    } else {
                        assert(el@[el.len() - 1] == z as usize);
                    }
                }
            }
        }
        y += 1;
    }
    proof {
        assert forall|k: int| 0 <= k < el.len() implies !in_dl_residue(axs, #[trigger] el@[k] as int) by {
            assert(!dl_set.contains(el@[k] as int));
        }
        assert forall|z: int| 0 <= z < axs.len() && in_dl_residue(axs, z) implies dl@.contains(z as usize) by {
            assert(dl_set.contains(z));
        }
        assert forall|z: int| 0 <= z < axs.len() && !in_dl_residue(axs, z) implies el@.contains(z as usize) by {
            if in_dl@[z] {
                let k = choose|k: int| 0 <= k < dl.len() && dl@[k] == z as usize;
                assert(in_dl_residue(axs, dl@[k] as int));
            }
        }
    }
    (el, dl)
}

fn ids_of(axioms: &Vec<ModuleAxiom>, positions: &Vec<usize>) -> (r: Vec<u64>)
    requires
        forall|k: int| 0 <= k < positions.len() ==> positions@[k] < axioms.len(),
    ensures
        r@ == ids_at(axioms@, positions@),
{
    let mut out: Vec<u64> = Vec::new();
    let mut i: usize = 0;
    while i < positions.len()
        invariant
            0 <= i <= positions.len(),
            forall|k: int| 0 <= k < positions.len() ==> positions@[k] < axioms.len(),
            out@ == ids_at(axioms@, positions@.take(i as int)),
        decreases positions.len() - i,
    {
        out.push(axioms[positions[i]].id);
        assert(ids_at(axioms@, positions@.take(i + 1)) =~= ids_at(axioms@, positions@.take(i as int)).push(
            axioms@[positions@[i as int] as int].id,
        ));
        i += 1;
    }
    assert(positions@.take(positions.len() as int) =~= positions@);
    out
}

/// Partition axiom ids into EL-safe and DL-residue buckets with dependency closure: the residue
/// holds the axioms that use a construct blocking EL classification and, repeatedly, every axiom
/// sharing a class with a residue axiom; it lists the former in order, then each round's
/// newcomers in order.
pub fn partition_axioms(axioms: &Vec<ModuleAxiom>) -> (r: (Vec<u64>, Vec<u64>))
    ensures
        residue_partition(axioms@, el_order(axioms@), residue_order(axioms@)),
        r.0@ == ids_at(axioms@, el_order(axioms@)),
        r.1@ == ids_at(axioms@, residue_order(axioms@)),
{
    let (el, dl) = partition_positions(axioms);
    let el_ids = ids_of(axioms, &el);
    let dl_ids = ids_of(axioms, &dl);
    assert(residue_partition(axioms@, el@, dl@));
    (el_ids, dl_ids)
}


/// In a residue partition the EL-safe part is cut off from the DL part: no EL-safe axiom shares a
/// class with a DL axiom, and no EL-safe axiom uses a construct that blocks EL classification.
pub proof fn lemma_el_part_is_cut_off(axs: Seq<ModuleAxiom>, el: Seq<usize>, dl: Seq<usize>)
    requires
        residue_partition(axs, el, dl),
    ensures
        forall|k: int, m: int|
            0 <= k < el.len() && 0 <= m < dl.len() ==> !share_class(
                #[trigger] axs[el[k] as int],
                #[trigger] axs[dl[m] as int],
            ),
        forall|k: int| 0 <= k < el.len() ==> !requires_dl(#[trigger] axs[el[k] as int]),
{
    assert forall|k: int, m: int|
        0 <= k < el.len() && 0 <= m < dl.len() implies !share_class(
            #[trigger] axs[el[k] as int],
            #[trigger] axs[dl[m] as int],
        ) by {
        let e = el[k] as int;
        let d = dl[m] as int;
        if share_class(axs[e], axs[d]) {
            let c = choose|c: u64| #[trigger] axs[e].classes@.contains(c) && axs[d].classes@.contains(c);
            assert(axs[d].classes@.contains(c));
            assert(share_class(axs[d], axs[e]));
            lemma_neighbour_in_residue(axs, d, e);
        }
    }
    assert forall|k: int| 0 <= k < el.len() implies !requires_dl(#[trigger] axs[el[k] as int]) by {
        if requires_dl(axs[el[k] as int]) {
            lemma_seed_in_residue(axs, el[k] as int);
        }
    }
}

/// With distinct axiom ids, the two parts of a residue partition hold every axiom id exactly
/// once: neither part repeats an id, no id is in both, and each axiom's id is in one of them.
pub proof fn lemma_ids_split_exactly_once(axs: Seq<ModuleAxiom>, el: Seq<usize>, dl: Seq<usize>)
    requires
        residue_partition(axs, el, dl),
        axs.len() <= usize::MAX,
        forall|i: int, j: int| 0 <= i < j < axs.len() ==> #[trigger] axs[i].id != #[trigger] axs[j].id,
    ensures
        ids_at(axs, el).no_duplicates(),
        ids_at(axs, dl).no_duplicates(),
        forall|id: u64| !(ids_at(axs, el).contains(id) && ids_at(axs, dl).contains(id)),
        forall|i: int| 0 <= i < axs.len() ==> ids_at(axs, el).contains(#[trigger] axs[i].id) || ids_at(axs, dl).contains(
            axs[i].id,
        ),
{
    let e = ids_at(axs, el);
    let d = ids_at(axs, dl);
    assert forall|a: int, b: int| 0 <= a < b < e.len() implies e[a] != e[b] by {
        assert(el[a] < el[b]);
        assert(axs[el[a] as int].id != axs[el[b] as int].id);
    }
    assert forall|a: int, b: int| 0 <= a < b < d.len() implies d[a] != d[b] by {
        assert(dl[a] != dl[b]);
        if dl[a] < dl[b] {
            assert(axs[dl[a] as int].id != axs[dl[b] as int].id);
        } else {
            assert(axs[dl[b] as int].id != axs[dl[a] as int].id);
        }
    }
    assert forall|id: u64| !(e.contains(id) && d.contains(id)) by {
        if e.contains(id) && d.contains(id) {
            let a = choose|a: int| 0 <= a < e.len() && e[a] == id;
            let b = choose|b: int| 0 <= b < d.len() && d[b] == id;
            let x = el[a] as int;
            let y = dl[b] as int;
            assert(!in_dl_residue(axs, x));
            assert(in_dl_residue(axs, y));
            if x < y {
                assert(axs[x].id != axs[y].id);
            } else if y < x {
                assert(axs[y].id != axs[x].id);
            }
        }
    }
    assert forall|i: int| 0 <= i < axs.len() implies e.contains(#[trigger] axs[i].id) || d.contains(axs[i].id) by {
        if in_dl_residue(axs, i) {
            assert(dl.contains(i as usize));
            let k = choose|k: int| 0 <= k < dl.len() && dl[k] == i as usize;
            assert(dl[k] as int == i);
            assert(d[k] == axs[i].id);
        } else {
            assert(el.contains(i as usize));
            let k = choose|k: int| 0 <= k < el.len() && el[k] == i as usize;
            assert(el[k] as int == i);
            assert(e[k] == axs[i].id);
        }
    }
}

/// One module of a hybrid ontology: its profile and the ids of its axioms.
pub struct HybridModule {
    /// The profile the module is classified under.
    pub profile: OwlProfile,
    /// The class IRIs of the module's axioms, sorted, each once.
    pub signature: Vec<String>,
    /// The ids of the module's axioms.
    pub axiom_ids: Vec<u64>,
}

/// The class IRIs of the axioms at `positions`.
pub open spec fn class_iris_at(axs: Seq<ModuleAxiom>, positions: Seq<usize>) -> Set<Seq<char>> {
    Set::new(
        |x: Seq<char>|
            exists|k: int, j: int|
                0 <= k < positions.len() && 0 <= j < axs[positions[k] as int].class_iris.len()
                    && (#[trigger] axs[positions[k] as int].class_iris@[j])@ == x,
    )
}

/// The signature of the axioms at `positions`: their class IRIs, sorted, each once.
pub open spec fn signature_at(axs: Seq<ModuleAxiom>, positions: Seq<usize>) -> Seq<Seq<char>> {
    sorted_members(class_iris_at(axs, positions))
}

fn signature_of(axioms: &Vec<ModuleAxiom>, positions: &Vec<usize>) -> (r: Vec<String>)
    requires
        forall|k: int| 0 <= k < positions.len() ==> positions@[k] < axioms.len(),
    ensures
        str_views(r@) == signature_at(axioms@, positions@),
{
    let mut items: Vec<Vec<char>> = Vec::new();
    let mut k: usize = 0;
    while k < positions.len()
        invariant
            0 <= k <= positions.len(),
            forall|q: int| 0 <= q < positions.len() ==> positions@[q] < axioms.len(),
            forall|x: Seq<char>|
                #[trigger] views(items@).contains(x) <==> exists|a: int, j: int|
                    0 <= a < k && 0 <= j < axioms@[positions@[a] as int].class_iris.len()
                        && (#[trigger] axioms@[positions@[a] as int].class_iris@[j])@ == x,
        decreases positions.len() - k,
    {
        let iris = &axioms[positions[k]].class_iris;
        let mut j: usize = 0;
        while j < iris.len()
            invariant
                0 <= k < positions.len(),
                0 <= j <= iris.len(),
                forall|q: int| 0 <= q < positions.len() ==> positions@[q] < axioms.len(),
                iris == axioms@[positions@[k as int] as int].class_iris,
                forall|x: Seq<char>|
                    #[trigger] views(items@).contains(x) <==> (exists|a: int, i: int|
                        0 <= a < k && 0 <= i < axioms@[positions@[a] as int].class_iris.len()
                            && (#[trigger] axioms@[positions@[a] as int].class_iris@[i])@ == x) || (exists|i: int|
                        0 <= i < j && (#[trigger] iris@[i])@ == x),
            decreases iris.len() - j,
        {
            let ghost before = views(items@);
            items.push(chars_of(iris[j].as_str()));
            proof {
                assert(views(items@) =~= before.push(iris@[j as int]@));
                assert forall|x: Seq<char>| #[trigger] views(items@).contains(x) <==> (exists|a: int, i: int|
                    0 <= a < k && 0 <= i < axioms@[positions@[a] as int].class_iris.len()
                        && (#[trigger] axioms@[positions@[a] as int].class_iris@[i])@ == x) || (exists|i: int|
                    0 <= i < j + 1 && (#[trigger] iris@[i])@ == x) by {
                    vstd::seq_lib::lemma_seq_contains_after_push(before, iris@[j as int]@, x);
                }
            }
            j += 1;
        }
        proof {
            assert forall|x: Seq<char>| #[trigger] views(items@).contains(x) <==> exists|a: int, i: int|
                0 <= a < k + 1 && 0 <= i < axioms@[positions@[a] as int].class_iris.len()
                    && (#[trigger] axioms@[positions@[a] as int].class_iris@[i])@ == x by {
                if exists|i: int| 0 <= i < j && (#[trigger] iris@[i])@ == x {
                    let i = choose|i: int| 0 <= i < j && (#[trigger] iris@[i])@ == x;
                    assert(axioms@[positions@[k as int] as int].class_iris@[i]@ == x);
                }
                if exists|a: int, i: int|
                    0 <= a < k + 1 && 0 <= i < axioms@[positions@[a] as int].class_iris.len()
                        && (#[trigger] axioms@[positions@[a] as int].class_iris@[i])@ == x {
                    let (a, i) = choose|a: int, i: int|
                        0 <= a < k + 1 && 0 <= i < axioms@[positions@[a] as int].class_iris.len()
                            && (#[trigger] axioms@[positions@[a] as int].class_iris@[i])@ == x;
                    if a == k {
                        assert(iris@[i]@ == x);
                    }
                }
            }
        }
        k += 1;
    }
    let r = sorted_strings(&items);
    assert(views(items@).to_set() =~= class_iris_at(axioms@, positions@));
    assert(str_views(r@) =~= r@.map_values(|x: String| x@));
    r
}

/// The modules of an ontology whose axioms split into `el` and `dl`: one EL module when nothing
/// needs DL, one DL module when nothing is EL-safe, else an EL module followed by a DL module.
pub open spec fn module_split(modules: Seq<HybridModule>, axs: Seq<ModuleAxiom>, el: Seq<usize>, dl: Seq<usize>) -> bool {
    if dl.len() == 0 {
        modules.len() == 1 && module_is(modules[0], OwlProfile::El, axs, el)
    } else if el.len() == 0 {
        modules.len() == 1 && module_is(modules[0], OwlProfile::Dl, axs, dl)
    } else {
        &&& modules.len() == 2
        &&& module_is(modules[0], OwlProfile::El, axs, el)
        &&& module_is(modules[1], OwlProfile::Dl, axs, dl)
    }
}

/// `m` is the module of `profile` over the axioms at `positions`: their ids and signature.
pub open spec fn module_is(m: HybridModule, profile: OwlProfile, axs: Seq<ModuleAxiom>, positions: Seq<usize>) -> bool {
    &&& m.profile == profile
    &&& m.axiom_ids@ == ids_at(axs, positions)
    &&& str_views(m.signature@) == signature_at(axs, positions)
}

/// Partition the axioms into EL / DL modules, each with its axiom ids and class signature.
pub fn classify_hybrid(axioms: &Vec<ModuleAxiom>) -> (r: Vec<HybridModule>)
    ensures
        module_split(r@, axioms@, el_order(axioms@), residue_order(axioms@)),
{
    let (el, dl) = partition_positions(axioms);
    let mut modules: Vec<HybridModule> = Vec::new();
    if dl.len() == 0 {
        modules.push(HybridModule { profile: OwlProfile::El, signature: signature_of(axioms, &el), axiom_ids: ids_of(axioms, &el) });
    } else if el.len() == 0 {
        modules.push(HybridModule { profile: OwlProfile::Dl, signature: signature_of(axioms, &dl), axiom_ids: ids_of(axioms, &dl) });
    } else {
        modules.push(HybridModule { profile: OwlProfile::El, signature: signature_of(axioms, &el), axiom_ids: ids_of(axioms, &el) });
        modules.push(HybridModule { profile: OwlProfile::Dl, signature: signature_of(axioms, &dl), axiom_ids: ids_of(axioms, &dl) });
    }
    modules
}

/// The engine a reasoning request runs on.
#[derive(Debug, Clone, Copy, PartialEq, Eq, Structural)]
pub enum EngineKind {
    /// The EL completion engine.
    El,
    /// The RDFS engine.
    Rdfs,
    /// The RL rule engine.
    Rl,
    /// The DL tableau engine.
    Dl,
    /// EL and DL engines over the modules of a hybrid ontology.
    Hybrid,
}

/// The reasoner profile a caller asks for.
#[derive(Debug, Clone, Copy, PartialEq, Eq, Structural)]
pub enum ReasonerProfile {
    /// OWL 2 EL.
    El,
    /// RDFS.
    Rdfs,
    /// OWL 2 RL.
    Rl,
    /// ALC.
    Alc,
    /// OWL 2 DL.
    Dl,
    /// OWL 2 DL, preview engine.
    DlPreview,
    /// SWRL rules.
    Swrl,
    /// Detect the profile from the ontology.
    Auto,
}

/// The engine an explicitly requested profile runs on; none for automatic detection.
pub open spec fn explicit_engine_of(profile: ReasonerProfile) -> Option<EngineKind> {
    match profile {
        ReasonerProfile::El => Some(EngineKind::El),
        ReasonerProfile::Rdfs => Some(EngineKind::Rdfs),
        ReasonerProfile::Rl => Some(EngineKind::Rl),
        ReasonerProfile::Alc | ReasonerProfile::Dl | ReasonerProfile::DlPreview | ReasonerProfile::Swrl => Some(
            EngineKind::Dl,
        ),
        ReasonerProfile::Auto => None,
    }
}

/// Resolve the engine for an explicitly requested profile; `None` asks for detection.
pub fn explicit_engine(profile: ReasonerProfile) -> (r: Option<EngineKind>)
    ensures
        r == explicit_engine_of(profile),
{
    match profile {
        ReasonerProfile::El => Some(EngineKind::El),
        ReasonerProfile::Rdfs => Some(EngineKind::Rdfs),
        ReasonerProfile::Rl => Some(EngineKind::Rl),
        ReasonerProfile::Alc | ReasonerProfile::Dl | ReasonerProfile::DlPreview | ReasonerProfile::Swrl => Some(
            EngineKind::Dl,
        ),
        ReasonerProfile::Auto => None,
    }
}

/// The engine that classifies a module or ontology of the given profile.
pub open spec fn engine_of_profile(profile: OwlProfile) -> EngineKind {
    match profile {
        OwlProfile::Rl => EngineKind::Rl,
        OwlProfile::El | OwlProfile::Ql => EngineKind::El,
        OwlProfile::Dl => EngineKind::Dl,
    }
}

/// The engine chosen by detection: below DL the detected profile's engine; for DL, the hybrid
/// engine when the ontology splits into several modules, else the engine of its one module (DL
/// when there is none).
pub open spec fn auto_engine_of(detected: OwlProfile, modules: Seq<OwlProfile>) -> EngineKind {
    if detected == OwlProfile::Dl {
        if modules.len() > 1 {
            EngineKind::Hybrid
        } else if modules.len() == 1 {
            engine_of_profile(modules[0])
        } else {
            EngineKind::Dl
        }
    } else {
        engine_of_profile(detected)
    }
}

/// Resolve the engine for automatic detection, from the detected profile and the profiles of the
/// hybrid modules.
pub fn auto_engine(detected: OwlProfile, modules: &Vec<OwlProfile>) -> (r: EngineKind)
    ensures
        r == auto_engine_of(detected, modules@),
{
    if detected == OwlProfile::Dl {
        if modules.len() > 1 {
            return EngineKind::Hybrid;
        }
        if modules.len() == 0 {
            return EngineKind::Dl;
        }
        return match modules[0] {
            OwlProfile::Dl => EngineKind::Dl,
            OwlProfile::Rl => EngineKind::Rl,
            OwlProfile::El | OwlProfile::Ql => EngineKind::El,
        };
    }
    match detected {
        OwlProfile::Rl => EngineKind::Rl,
        OwlProfile::El | OwlProfile::Ql => EngineKind::El,
        OwlProfile::Dl => EngineKind::Dl,
    }
}


/// The requested profiles that only the DL tableau can answer: ALC, OWL 2 DL (with its preview
/// engine) and SWRL rules.
pub open spec fn needs_tableau(p: ReasonerProfile) -> bool {
    p == ReasonerProfile::Alc || p == ReasonerProfile::Dl || p == ReasonerProfile::DlPreview || p
        == ReasonerProfile::Swrl
}

/// An explicit request names an engine exactly when it is not `auto`, and never the hybrid
/// engine, which only detection chooses; two requests share an engine exactly when they are the
/// same profile or both need the tableau.
pub proof fn lemma_explicit_engines_distinct(p: ReasonerProfile, q: ReasonerProfile)
    ensures
        explicit_engine_of(p) is None <==> p == ReasonerProfile::Auto,
        explicit_engine_of(p) != Some(EngineKind::Hybrid),
        p != ReasonerProfile::Auto && q != ReasonerProfile::Auto ==> (explicit_engine_of(p)
            == explicit_engine_of(q) <==> (p == q || (needs_tableau(p) && needs_tableau(q)))),
{
}

/// Asking for OWL 2 EL, RL or DL explicitly runs the engine that detection picks for an
/// ontology found to be in that profile.
pub proof fn lemma_explicit_matches_detection(detected: OwlProfile)
    requires
        detected != OwlProfile::Ql,
    ensures
        explicit_engine_of(
            match detected {
                OwlProfile::El => ReasonerProfile::El,
                OwlProfile::Rl => ReasonerProfile::Rl,
                _ => ReasonerProfile::Dl,
            },
        ) == Some(auto_engine_of(detected, Seq::empty())),
{
}
} // verus!
