//! The RDF/XML preprocessing pipeline: the rewriting stages a document passes through before it
//! is parsed, each output counted against the preprocessing allocation budget.
use vstd::prelude::*;

use crate::all_different::{
    all_different_chars_checked, all_different_normalized, all_different_stripped, members_before_all_different,
    normalize_all_different_members,
};
use crate::booleans::{contains_ill_founded_rdf_list, has_ill_founded_list};
use crate::budget::{budget_message, sat_add, PreprocessBudget};
use crate::classes::{class_intersections_normalized, normalize_class_intersection_definitions};
use crate::descriptions::{
    anonymous_individuals_named, materialize_anonymous_individual_descriptions,
    materialize_named_individual_descriptions, named_individuals_materialized,
};
use crate::disjoint::{disjoint_collections_checked, disjoint_collections_expanded, disjoint_expansion_ends, disjoint_expansion_within, expand_all_disjoint_collections};
use crate::entities::{expand_xml_entities_with_limit, expanded};
use crate::error::Error;
use crate::ids::{dedupe_rdf_xml_ids, ids_deduped, invalid_ids_normalized, normalize_invalid_rdf_ids};
use crate::legacy::{
    normalize_multiline_rdf_root_tag, normalize_rdfs_class_elements, normalize_relative_owl_uris,
    rdfs_classes_normalized, relative_owl_uris_normalized, root_tag_collapsed,
};
use crate::limits::ParseLimits;
use crate::punning::{inject_rdf_based_punning_declarations, punning_declarations_injected};
use crate::same_as::{class_same_as_normalized, normalize_class_same_as};
use crate::text::{chars_of, contains, string_of, utf8_len};
use crate::typed::{materialize_typed_node_elements, typed_nodes_materialized};
use crate::typed_about::{materialize_typed_about_elements, typed_about_materialized};

verus! {

/// The bytes counted against the budget after the given stage outputs (saturating).
pub open spec fn cumulative(outs: Seq<Seq<char>>) -> int
    decreases outs.len(),
{
    if outs.len() == 0 {
        0
    } else {
        sat_add(cumulative(outs.drop_last()), utf8_len(outs.last()) as int)
    }
}

/// The budget error of the first stage output after which the count exceeds `limit`, if any.
pub open spec fn budget_failure(outs: Seq<Seq<char>>, limit: nat) -> Option<Seq<char>>
    decreases outs.len(),
{
    if outs.len() == 0 {
        None
    } else {
        match budget_failure(outs.drop_last(), limit) {
            Some(m) => Some(m),
            None => if cumulative(outs) > limit {
                Some(budget_message(cumulative(outs) as nat, limit))
            } else {
                None
            },
        }
    }
}

/// The outputs before entity expansion: the document, its collapsed root tag, its deduplicated
/// `rdf:ID`s and its normalized invalid `rdf:ID`s.
pub open spec fn early_stages(text: Seq<char>) -> Seq<Seq<char>> {
    let a = root_tag_collapsed(text);
    let b = ids_deduped(a);
    let c = invalid_ids_normalized(b);
    seq![text, a, b, c]
}

/// The rewriting done by the late stage `n`: relative OWL URIs, `rdfs:Class` elements, punning
/// declarations, typed `rdf:about` elements, typed nodes, class intersections, class `owl:sameAs`,
/// named and anonymous individuals, `owl:AllDifferent` members and disjoint collections.
pub open spec fn late_stage(n: int, s: Seq<char>) -> Seq<char> {
    if n == 1 {
        relative_owl_uris_normalized(s)
    } else if n == 2 {
        rdfs_classes_normalized(s)
    } else if n == 3 {
        punning_declarations_injected(s)
    } else if n == 4 {
        typed_about_materialized(s)
    } else if n == 5 {
        typed_nodes_materialized(s)
    } else if n == 6 {
        class_intersections_normalized(s)
    } else if n == 7 {
        class_same_as_normalized(s)
    } else if n == 8 {
        named_individuals_materialized(s)
    } else if n == 9 {
        anonymous_individuals_named(s)
    } else if n == 10 {
        all_different_normalized(s)
    } else {
        disjoint_collections_expanded(s)
    }
}

/// The output of the late stages up to `n`, from the entity-expanded document `x`.
pub open spec fn late_output(x: Seq<char>, n: nat) -> Seq<char>
    decreases n,
{
    if n == 0 {
        x
    } else {
        late_stage(n as int, late_output(x, (n - 1) as nat))
    }
}

/// The outputs from the entity-expanded document `x` on, one per late stage.
pub open spec fn late_stages(x: Seq<char>) -> Seq<Seq<char>> {
    Seq::new(12, |n: int| late_output(x, n as nat))
}

/// The stages run on a document: the budget fails at the first stage output that exceeds it,
/// entity expansion fails on its own limits, and otherwise the result is the last output with
/// whether the expanded document holds an ill-founded list.
pub open spec fn preprocessed(text: Seq<char>, limits: ParseLimits) -> Result<(Seq<char>, bool), Seq<char>> {
    let early = early_stages(text);
    match budget_failure(early, limits.max_preprocess_bytes as nat) {
        Some(m) => Err(m),
        None => match expanded(early.last(), limits.max_expanded_bytes as nat) {
            Err(m) => Err(m),
            Ok(x) => match budget_failure(early + late_stages(x), limits.max_preprocess_bytes as nat) {
                Some(m) => Err(m),
                None => Ok((late_stages(x).last(), has_ill_founded_list(x))),
            },
        },
    }
}

/// The documents on which the stages that reach them come to an end without panicking: the
/// `owl:AllDifferent` stage and the disjoint-collection stage each demand a shape of their input.
pub open spec fn stages_end(text: Seq<char>, limits: ParseLimits) -> bool {
    let early = early_stages(text);
    let limit = limits.max_preprocess_bytes as nat;
    budget_failure(early, limit) is None ==> match expanded(early.last(), limits.max_expanded_bytes as nat) {
        Err(_) => true,
        Ok(x) => {
            let late = late_stages(x);
            &&& budget_failure(early + late.take(10), limit) is None ==> (contains(late[9], "<owl:AllDifferent"@)
                ==> !members_before_all_different(all_different_stripped(late[9])))
            &&& budget_failure(early + late.take(11), limit) is None ==> disjoint_expansion_ends(late[10])
        },
    }
}

/// Once the budget fails, later outputs keep the failure and its message.
pub proof fn lemma_failure_persists(s: Seq<Seq<char>>, t: Seq<Seq<char>>, limit: nat)
    requires
        budget_failure(s, limit) is Some,
    ensures
        budget_failure(s + t, limit) == budget_failure(s, limit),
    decreases t.len(),
{
    if t.len() == 0 {
        assert(s + t =~= s);
    } else {
        lemma_failure_persists(s, t.drop_last(), limit);
        assert((s + t).drop_last() =~= s + t.drop_last());
    }
}

fn track_output(budget: &mut PreprocessBudget, stage: &String, Ghost(outs): Ghost<Seq<Seq<char>>>) -> (r: Result<
    (),
    Error,
>)
    requires
        old(budget).used == cumulative(outs),
        budget_failure(outs, old(budget).limit as nat) is None,
    ensures
        final(budget).limit == old(budget).limit,
        final(budget).used == cumulative(outs.push(stage@)),
        match budget_failure(outs.push(stage@), old(budget).limit as nat) {
            None => r is Ok,
            Some(m) => r matches Err(Error::Parse(x)) && x@ == m,
        },
{
    let r = budget.track(stage.as_str());
    assert(outs.push(stage@).drop_last() =~= outs);
    r
}

fn run_early_stages(text: &str, budget: &mut PreprocessBudget) -> (r: Result<String, Error>)
    requires
        old(budget).used == 0,
    ensures
        final(budget).limit == old(budget).limit,
        match budget_failure(early_stages(text@), old(budget).limit as nat) {
            Some(m) => r matches Err(Error::Parse(x)) && x@ == m,
            None => r matches Ok(s) && s@ == early_stages(text@).last() && final(budget).used == cumulative(
                early_stages(text@),
            ),
        },
{
    let ghost limit = budget.limit as nat;
    let ghost all = early_stages(text@);
    let t = String::from_str(text);
    let ghost outs: Seq<Seq<char>> = Seq::empty();
    match track_output(budget, &t, Ghost(outs)) {
        Ok(()) => {},
        Err(e) => {
            proof {
                lemma_failure_persists(outs.push(t@), all.skip(1), limit);
                assert(outs.push(t@) + all.skip(1) =~= all);
            }
            return Err(e);
        },
    }
    let a = normalize_multiline_rdf_root_tag(text);
    let ghost outs = seq![text@];
    match track_output(budget, &a, Ghost(outs)) {
        Ok(()) => {},
        Err(e) => {
            proof {
                lemma_failure_persists(outs.push(a@), all.skip(2), limit);
                assert(outs.push(a@) + all.skip(2) =~= all);
            }
            return Err(e);
        },
    }
    let b = dedupe_rdf_xml_ids(a.as_str());
    assert(seq![text@, a@] =~= seq![text@].push(a@));
    let ghost outs = seq![text@, a@];
    match track_output(budget, &b, Ghost(outs)) {
        Ok(()) => {},
        Err(e) => {
            proof {
                lemma_failure_persists(outs.push(b@), all.skip(3), limit);
                assert(outs.push(b@) + all.skip(3) =~= all);
            }
            return Err(e);
        },
    }
    let c = normalize_invalid_rdf_ids(b.as_str());
    assert(seq![text@, a@, b@] =~= seq![text@, a@].push(b@));
    let ghost outs = seq![text@, a@, b@];
    let r = track_output(budget, &c, Ghost(outs));
    assert(all =~= outs.push(c@));
    match r {
        Ok(()) => Ok(c),
        Err(e) => Err(e),
    }
}

/// Track the output of one stage of a run whose outputs are `all`, where the outputs before it
/// are its first `n`.
fn track_stage(
    budget: &mut PreprocessBudget,
    out: &String,
    Ghost(all): Ghost<Seq<Seq<char>>>,
    Ghost(n): Ghost<int>,
) -> (r: Result<(), Error>)
    requires
        0 <= n < all.len(),
        all[n] == out@,
        old(budget).used == cumulative(all.take(n)),
        budget_failure(all.take(n), old(budget).limit as nat) is None,
    ensures
        final(budget).limit == old(budget).limit,
        r is Ok ==> final(budget).used == cumulative(all.take(n + 1)) && budget_failure(
            all.take(n + 1),
            old(budget).limit as nat,
        ) is None,
        r matches Err(err) ==> budget_failure(all, old(budget).limit as nat) matches Some(m) && err matches Error::Parse(
            v,
        ) && v@ == m,
{
    let ghost limit = budget.limit as nat;
    let r = track_output(budget, out, Ghost(all.take(n)));
    proof {
        assert(all.take(n).push(out@) =~= all.take(n + 1));
        if r is Err {
            lemma_failure_persists(all.take(n + 1), all.skip(n + 1), limit);
            assert(all.take(n + 1) + all.skip(n + 1) =~= all);
        }
    }
    r
}

fn run_late_stages_first(
    prev: String,
    budget: &mut PreprocessBudget,
    Ghost(x): Ghost<Seq<char>>,
    Ghost(early): Ghost<Seq<Seq<char>>>,
) -> (r: Result<String, Error>)
    requires
        prev@ == late_output(x, 0),
        old(budget).used == cumulative(early + late_stages(x).take(0)),
        budget_failure(early + late_stages(x).take(0), old(budget).limit as nat) is None,
    ensures
        final(budget).limit == old(budget).limit,
        match r {
            Ok(s) => s@ == late_output(x, 5) && final(budget).used == cumulative(
                early + late_stages(x).take(6),
            ) && budget_failure(early + late_stages(x).take(6), old(budget).limit as nat) is None,
            Err(err) => budget_failure(early + late_stages(x), old(budget).limit as nat) matches Some(m)
                && err matches Error::Parse(v) && v@ == m,
        },
{
    let ghost all = early + late_stages(x);
    let ghost m: int = early.len() as int;
    assert(all.take(m) =~= early + late_stages(x).take(0));
    assert(all[m] == late_output(x, 0));
    match track_stage(budget, &prev, Ghost(all), Ghost(m)) {
        Ok(()) => {},
        Err(err) => return Err(err),
    }
    let a = normalize_relative_owl_uris(prev.as_str());
    assert(a@ == late_output(x, 1));
    assert(all[m + 1] == late_output(x, 1));
    match track_stage(budget, &a, Ghost(all), Ghost(m + 1)) {
        Ok(()) => {},
        Err(err) => return Err(err),
    }
    let b = normalize_rdfs_class_elements(a.as_str());
    assert(b@ == late_output(x, 2));
    assert(all[m + 2] == late_output(x, 2));
    match track_stage(budget, &b, Ghost(all), Ghost(m + 2)) {
        Ok(()) => {},
        Err(err) => return Err(err),
    }
    let c = inject_rdf_based_punning_declarations(b.as_str());
    assert(c@ == late_output(x, 3));
    assert(all[m + 3] == late_output(x, 3));
    match track_stage(budget, &c, Ghost(all), Ghost(m + 3)) {
        Ok(()) => {},
        Err(err) => return Err(err),
    }
    let d = materialize_typed_about_elements(c.as_str());
    assert(d@ == late_output(x, 4));
    assert(all[m + 4] == late_output(x, 4));
    match track_stage(budget, &d, Ghost(all), Ghost(m + 4)) {
        Ok(()) => {},
        Err(err) => return Err(err),
    }
    let e = materialize_typed_node_elements(d.as_str());
    assert(e@ == late_output(x, 5));
    assert(all[m + 5] == late_output(x, 5));
    match track_stage(budget, &e, Ghost(all), Ghost(m + 5)) {
        Ok(()) => {},
        Err(err) => return Err(err),
    }
    assert(all.take(m + 6) =~= early + late_stages(x).take(6));
    Ok(e)
}

fn run_late_stages_second(
    prev: String,
    budget: &mut PreprocessBudget,
    Ghost(x): Ghost<Seq<char>>,
    Ghost(early): Ghost<Seq<Seq<char>>>,
) -> (r: Result<String, Error>)
    requires
        prev@ == late_output(x, 5),
        old(budget).used == cumulative(early + late_stages(x).take(6)),
        budget_failure(early + late_stages(x).take(6), old(budget).limit as nat) is None,
        budget_failure(early + late_stages(x).take(10), old(budget).limit as nat) is None ==> (contains(
            late_output(x, 9),
            "<owl:AllDifferent"@,
        ) ==> !members_before_all_different(all_different_stripped(late_output(x, 9)))),
        budget_failure(early + late_stages(x).take(11), old(budget).limit as nat) is None
            ==> disjoint_expansion_ends(late_output(x, 10)),
    ensures
        final(budget).limit == old(budget).limit,
        match r {
            Ok(s) => s@ == late_output(x, 11) && final(budget).used == cumulative(
                early + late_stages(x).take(12),
            ) && budget_failure(early + late_stages(x).take(12), old(budget).limit as nat) is None,
            Err(err) => budget_failure(early + late_stages(x), old(budget).limit as nat) matches Some(m)
                && err matches Error::Parse(v) && v@ == m,
        },
{
    let ghost all = early + late_stages(x);
    let ghost m: int = early.len() as int;
    assert(all.take(m + 6) =~= early + late_stages(x).take(6));
    let f = normalize_class_intersection_definitions(prev.as_str());
    assert(f@ == late_output(x, 6));
    assert(all[m + 6] == late_output(x, 6));
    match track_stage(budget, &f, Ghost(all), Ghost(m + 6)) {
        Ok(()) => {},
        Err(err) => return Err(err),
    }
    let g = normalize_class_same_as(f.as_str());
    assert(g@ == late_output(x, 7));
    assert(all[m + 7] == late_output(x, 7));
    match track_stage(budget, &g, Ghost(all), Ghost(m + 7)) {
        Ok(()) => {},
        Err(err) => return Err(err),
    }
    let h = materialize_named_individual_descriptions(g.as_str());
    assert(h@ == late_output(x, 8));
    assert(all[m + 8] == late_output(x, 8));
    match track_stage(budget, &h, Ghost(all), Ghost(m + 8)) {
        Ok(()) => {},
        Err(err) => return Err(err),
    }
    let i = materialize_anonymous_individual_descriptions(h.as_str());
    assert(i@ == late_output(x, 9));
    assert(all[m + 9] == late_output(x, 9));
    match track_stage(budget, &i, Ghost(all), Ghost(m + 9)) {
        Ok(()) => {},
        Err(err) => return Err(err),
    }
    assert(all.take(m + 10) =~= early + late_stages(x).take(10));
    let j = normalize_all_different_members(i.as_str());
    assert(j@ == late_output(x, 10));
    assert(all[m + 10] == late_output(x, 10));
    match track_stage(budget, &j, Ghost(all), Ghost(m + 10)) {
        Ok(()) => {},
        Err(err) => return Err(err),
    }
    assert(all.take(m + 11) =~= early + late_stages(x).take(11));
    let k = expand_all_disjoint_collections(j.as_str());
    assert(k@ == late_output(x, 11));
    assert(all[m + 11] == late_output(x, 11));
    match track_stage(budget, &k, Ghost(all), Ghost(m + 11)) {
        Ok(()) => {},
        Err(err) => return Err(err),
    }
    assert(all.take(m + 12) =~= early + late_stages(x).take(12));
    Ok(k)
}


/// Run the RDF/XML preprocessing stages on a document, from the collapse of its root tag through
/// the expansion of its disjoint collections, counting each output against the preprocessing
/// budget; also tell whether the entity-expanded document holds an ill-founded list.
pub fn preprocess_rdf_xml(text: &str, limits: ParseLimits) -> (r: Result<(String, bool), Error>)
    requires
        stages_end(text@, limits),
    ensures
        match preprocessed(text@, limits) {
            Ok((out, ill)) => r matches Ok((s, b)) && s@ == out && b == ill,
            Err(m) => r matches Err(Error::Parse(v)) && v@ == m,
        },
{
    let mut budget = PreprocessBudget::new(limits.max_preprocess_bytes);
    assert(cumulative(Seq::<Seq<char>>::empty()) == 0);
    let ghost early = early_stages(text@);
    let c = match run_early_stages(text, &mut budget) {
        Ok(c) => c,
        Err(e) => return Err(e),
    };
    let x = match expand_xml_entities_with_limit(c.as_str(), limits.max_expanded_bytes) {
        Ok(x) => x,
        Err(e) => return Err(e),
    };
    let ill = contains_ill_founded_rdf_list(x.as_str());
    let ghost xv = x@;
    assert(early + late_stages(xv).take(0) =~= early);
    let mid = match run_late_stages_first(x, &mut budget, Ghost(xv), Ghost(early)) {
        Ok(m) => m,
        Err(e) => return Err(e),
    };
    assert(late_stages(xv)[9] == late_output(xv, 9));
    assert(late_stages(xv)[10] == late_output(xv, 10));
    let out = match run_late_stages_second(mid, &mut budget, Ghost(xv), Ghost(early)) {
        Ok(o) => o,
        Err(e) => return Err(e),
    };
    assert(late_stages(xv).take(12) =~= late_stages(xv));
    assert(late_stages(xv).last() == late_output(xv, 11));
    Ok((out, ill))
}


/// `owl:AllDifferent members precede the owl:AllDifferent element`.
pub open spec fn all_different_order_message() -> Seq<char> {
    "owl:AllDifferent members precede the owl:AllDifferent element"@
}

/// `disjoint collection expansion never ends`.
pub open spec fn disjoint_unending_message() -> Seq<char> {
    "disjoint collection expansion never ends"@
}

/// `disjoint collection expansion did not settle within the round limit`.
pub open spec fn disjoint_rounds_message() -> Seq<char> {
    "disjoint collection expansion did not settle within the round limit"@
}

/// The messages with which the checked preprocessing stops at a stage that cannot run.
pub open spec fn stage_stop_message(m: Seq<char>) -> bool {
    m == all_different_order_message() || m == disjoint_unending_message() || m
        == disjoint_rounds_message()
}

/// The documents on which the disjoint-collection stage, where it is reached, settles within
/// `k` rounds of each of its loops.
pub open spec fn stages_settle(text: Seq<char>, limits: ParseLimits, k: nat) -> bool {
    let early = early_stages(text);
    let limit = limits.max_preprocess_bytes as nat;
    budget_failure(early, limit) is None ==> match expanded(early.last(), limits.max_expanded_bytes as nat) {
        Err(_) => true,
        Ok(x) => budget_failure(early + late_stages(x).take(11), limit) is None
            ==> disjoint_expansion_within(late_stages(x)[10], k),
    }
}

fn run_late_stages_second_checked(
    prev: String,
    budget: &mut PreprocessBudget,
    max_rounds: usize,
    Ghost(x): Ghost<Seq<char>>,
    Ghost(early): Ghost<Seq<Seq<char>>>,
) -> (r: Result<String, Error>)
    requires
        prev@ == late_output(x, 5),
        old(budget).used == cumulative(early + late_stages(x).take(6)),
        budget_failure(early + late_stages(x).take(6), old(budget).limit as nat) is None,
    ensures
        final(budget).limit == old(budget).limit,
        ({
            let limit = old(budget).limit as nat;
            let c10 = budget_failure(early + late_stages(x).take(10), limit) is None ==> (contains(
                late_output(x, 9),
                "<owl:AllDifferent"@,
            ) ==> !members_before_all_different(all_different_stripped(late_output(x, 9))));
            let c11 = budget_failure(early + late_stages(x).take(11), limit) is None
                ==> disjoint_expansion_ends(late_output(x, 10));
            let w11 = budget_failure(early + late_stages(x).take(11), limit) is None
                ==> disjoint_expansion_within(late_output(x, 10), max_rounds as nat);
            &&& r matches Ok(s) ==> c10 && c11 && s@ == late_output(x, 11) && final(budget).used
                == cumulative(early + late_stages(x).take(12)) && budget_failure(
                early + late_stages(x).take(12),
                limit,
            ) is None
            &&& !(c10 && c11) ==> r is Err
            &&& r matches Err(err) ==> err matches Error::Parse(v) && ((budget_failure(
                early + late_stages(x),
                limit,
            ) matches Some(m) && v@ == m) || stage_stop_message(v@))
            &&& (c10 && c11 && w11) ==> (r matches Err(err) ==> budget_failure(
                early + late_stages(x),
                limit,
            ) matches Some(m) && err matches Error::Parse(v) && v@ == m)
        }),
{
    let ghost all = early + late_stages(x);
    let ghost m: int = early.len() as int;
    assert(all.take(m + 6) =~= early + late_stages(x).take(6));
    let f = normalize_class_intersection_definitions(prev.as_str());
    assert(all[m + 6] == late_output(x, 6));
    match track_stage(budget, &f, Ghost(all), Ghost(m + 6)) {
        Ok(()) => {},
        Err(err) => return Err(err),
    }
    let g = normalize_class_same_as(f.as_str());
    assert(all[m + 7] == late_output(x, 7));
    match track_stage(budget, &g, Ghost(all), Ghost(m + 7)) {
        Ok(()) => {},
        Err(err) => return Err(err),
    }
    let h = materialize_named_individual_descriptions(g.as_str());
    assert(all[m + 8] == late_output(x, 8));
    match track_stage(budget, &h, Ghost(all), Ghost(m + 8)) {
        Ok(()) => {},
        Err(err) => return Err(err),
    }
    let i = materialize_anonymous_individual_descriptions(h.as_str());
    assert(all[m + 9] == late_output(x, 9));
    match track_stage(budget, &i, Ghost(all), Ghost(m + 9)) {
        Ok(()) => {},
        Err(err) => return Err(err),
    }
    assert(all.take(m + 10) =~= early + late_stages(x).take(10));
    let ic = chars_of(i.as_str());
    let jc = match all_different_chars_checked(&ic) {
        Some(v) => v,
        None => {
            proof {
                reveal_strlit("owl:AllDifferent members precede the owl:AllDifferent element");
            }
            let msg = String::from_str("owl:AllDifferent members precede the owl:AllDifferent element");
            return Err(Error::Parse(msg));
        },
    };
    let j = string_of(&jc);
    assert(all[m + 10] == late_output(x, 10));
    match track_stage(budget, &j, Ghost(all), Ghost(m + 10)) {
        Ok(()) => {},
        Err(err) => return Err(err),
    }
    assert(all.take(m + 11) =~= early + late_stages(x).take(11));
    let kc = match disjoint_collections_checked(&jc, max_rounds) {
        Ok(v) => v,
        Err(never) => {
            if never {
                proof {
                    reveal_strlit("disjoint collection expansion never ends");
                }
                return Err(Error::Parse(String::from_str("disjoint collection expansion never ends")));
            } else {
                proof {
                    reveal_strlit("disjoint collection expansion did not settle within the round limit");
                }
                return Err(Error::Parse(
                    String::from_str("disjoint collection expansion did not settle within the round limit"),
                ));
            }
        },
    };
    let k = string_of(&kc);
    assert(all[m + 11] == late_output(x, 11));
    match track_stage(budget, &k, Ghost(all), Ghost(m + 11)) {
        Ok(()) => {},
        Err(err) => return Err(err),
    }
    assert(all.take(m + 12) =~= early + late_stages(x).take(12));
    Ok(k)
}

/// `preprocess_rdf_xml` for any document: where a stage cannot run (the `owl:AllDifferent`
/// members come before the element, or the disjoint-collection expansion never ends) it stops
/// with an error instead, and each disjoint-collection loop runs at most `max_rounds` rounds.
/// Where the stages run and settle within that bound, the result is `preprocess_rdf_xml`'s.
pub fn preprocess_rdf_xml_checked(text: &str, limits: ParseLimits, max_rounds: usize) -> (r: Result<
    (String, bool),
    Error,
>)
    ensures
        r matches Ok((s, b)) ==> stages_end(text@, limits) && preprocessed(text@, limits) == Ok::<
            (Seq<char>, bool),
            Seq<char>,
        >((s@, b)),
        !stages_end(text@, limits) ==> r is Err,
        stages_end(text@, limits) && stages_settle(text@, limits, max_rounds as nat) ==> match preprocessed(
            text@,
            limits,
        ) {
            Ok((out, ill)) => r matches Ok((s, b)) && s@ == out && b == ill,
            Err(m) => r matches Err(Error::Parse(v)) && v@ == m,
        },
        r matches Err(e) ==> e matches Error::Parse(v) && ((preprocessed(text@, limits) matches Err(m)
            && v@ == m) || stage_stop_message(v@)),
{
    let mut budget = PreprocessBudget::new(limits.max_preprocess_bytes);
    assert(cumulative(Seq::<Seq<char>>::empty()) == 0);
    let ghost early = early_stages(text@);
    let c = match run_early_stages(text, &mut budget) {
        Ok(c) => c,
        Err(e) => return Err(e),
    };
    let x = match expand_xml_entities_with_limit(c.as_str(), limits.max_expanded_bytes) {
        Ok(x) => x,
        Err(e) => return Err(e),
    };
    let ill = contains_ill_founded_rdf_list(x.as_str());
    let ghost xv = x@;
    assert(early + late_stages(xv).take(0) =~= early);
    let mid = match run_late_stages_first(x, &mut budget, Ghost(xv), Ghost(early)) {
        Ok(m) => m,
        Err(e) => return Err(e),
    };
    assert(late_stages(xv)[9] == late_output(xv, 9));
    assert(late_stages(xv)[10] == late_output(xv, 10));
    let out = match run_late_stages_second_checked(mid, &mut budget, max_rounds, Ghost(xv), Ghost(early)) {
        Ok(o) => o,
        Err(e) => return Err(e),
    };
    assert(late_stages(xv).take(12) =~= late_stages(xv));
    assert(late_stages(xv).last() == late_output(xv, 11));
    Ok((out, ill))
}

} // verus!
