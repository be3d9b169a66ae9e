//! `owl:AllDisjointClasses` and `owl:AllDisjointProperties`, expanded into pairwise axioms.
use vstd::prelude::*;

use crate::ids::views;
use crate::text::{chars_of, contains, contains_lit, matches_at, copy, find, find_from, find_lit, lemma_find_from_bounds, push_all, push_range, push_str, slice, string_of};

verus! {

/// The `rdf:about="..."` values of a member collection from `pos`, in order (`None` where the
/// scan would step past the end of the text).
pub open spec fn about_values(inner: Seq<char>, pos: int) -> Option<Seq<Seq<char>>>
    decreases inner.len() - pos,
{
    if pos < 0 || pos > inner.len() {
        None
    } else {
        match find_from(inner, pos, "rdf:about=\""@) {
            None => Some(Seq::empty()),
            Some(k) => if k < pos || k + 11 > inner.len() {
                Some(Seq::empty())
            } else {
                let vs = k + 11;
                let head = match find_from(inner, vs, seq!['"']) {
                    Some(e) => seq![inner.subrange(vs, e)],
                    None => Seq::empty(),
                };
                if vs + 1 > inner.len() {
                    None
                } else {
                    match about_values(inner, vs + 1) {
                        None => None,
                        Some(rest) => Some(head + rest),
                    }
                }
            },
        }
    }
}

fn about_values_exec(inner: &Vec<char>) -> (r: Option<Vec<Vec<char>>>)
    ensures
        match r {
            Some(v) => about_values(inner@, 0) == Some(views(v@)),
            None => about_values(inner@, 0) is None,
        },
{
    proof {
        reveal_strlit("rdf:about=\"");
    }
    let q: Vec<char> = vec!['"'];
    assert(q@ =~= seq!['"']);
    let mut vals: Vec<Vec<char>> = Vec::new();
    let mut pos: usize = 0;
    loop
        invariant
            pos <= inner.len(),
            q@ == seq!['"'],
            "rdf:about=\""@.len() == 11,
            match about_values(inner@, pos as int) {
                None => about_values(inner@, 0) is None,
                Some(rest) => about_values(inner@, 0) == Some(views(vals@) + rest),
            },
        decreases inner.len() - pos,
    {
        let k = match find_lit(inner, pos, "rdf:about=\"") {
            None => {
                assert(views(vals@) + Seq::<Seq<char>>::empty() =~= views(vals@));
                return Some(vals);
            },
            Some(k) => k,
        };
        proof {
            lemma_find_from_bounds(inner@, pos as int, "rdf:about=\""@);
        }
        let vs = k + 11;
        let ghost before = views(vals@);
        match find(inner, vs, &q) {
            Some(e) => {
                proof {
                    lemma_find_from_bounds(inner@, vs as int, q@);
                }
                let v = slice(inner, vs, e);
                vals.push(v);
                proof {
                    assert(views(vals@) =~= before + seq![inner@.subrange(vs as int, e as int)]);
                }
            },
            None => {
                assert(views(vals@) =~= before + Seq::<Seq<char>>::empty());
            },
        }
        if vs >= inner.len() {
            return None;
        }
        proof {
            let head = match find_from(inner@, vs as int, seq!['"']) {
                Some(e) => seq![inner@.subrange(vs as int, e)],
                None => Seq::empty(),
            };
            assert(views(vals@) == before + head);
            match about_values(inner@, vs + 1) {
                None => {},
                Some(rest) => {
                    assert(before + (head + rest) =~= views(vals@) + rest);
                },
            }
        }
        pos = vs + 1;
    }
}

/// The declaration lines for the members from index `i`: `  <{decl} rdf:about="{iri}"/>`.
pub open spec fn declaration_lines(iris: Seq<Seq<char>>, decl: Seq<char>, i: int) -> Seq<char>
    decreases iris.len() - i,
{
    if i < 0 || i >= iris.len() {
        Seq::empty()
    } else {
        "  <"@ + decl + " rdf:about=\""@ + iris[i] + "\"/>\n"@ + declaration_lines(iris, decl, i + 1)
    }
}

/// The statement that member `i` is disjoint from member `j`.
pub open spec fn disjoint_statement(a: Seq<char>, b: Seq<char>, disjoint: Seq<char>) -> Seq<char> {
    "  <rdf:Description rdf:about=\""@ + a + "\">\n    <"@ + disjoint + " rdf:resource=\""@ + b
        + "\"/>\n  </rdf:Description>\n"@
}

/// The statements that member `i` is disjoint from each member from index `j` on.
pub open spec fn disjoint_row(iris: Seq<Seq<char>>, disjoint: Seq<char>, i: int, j: int) -> Seq<
    char,
>
    decreases iris.len() - j,
{
    if j < 0 || j >= iris.len() {
        Seq::empty()
    } else {
        disjoint_statement(iris[i], iris[j], disjoint) + disjoint_row(iris, disjoint, i, j + 1)
    }
}

/// The statements for every pair `i < j` of members, from row `i` on.
pub open spec fn disjoint_pairs(iris: Seq<Seq<char>>, disjoint: Seq<char>, i: int) -> Seq<char>
    decreases iris.len() - i,
{
    if i < 0 || i >= iris.len() {
        Seq::empty()
    } else {
        disjoint_row(iris, disjoint, i, i + 1) + disjoint_pairs(iris, disjoint, i + 1)
    }
}

fn injections_exec(iris: &Vec<Vec<char>>, disjoint: &Vec<char>, decl: &Vec<char>) -> (r: Vec<char>)
    ensures
        r@ == declaration_lines(views(iris@), decl@, 0) + disjoint_pairs(
            views(iris@),
            disjoint@,
            0,
        ),
{
    let ghost vs = views(iris@);
    let mut decls: Vec<char> = Vec::new();
    let mut i: usize = 0;
    while i < iris.len()
        invariant
            i <= iris.len(),
            vs == views(iris@),
            decls@ + declaration_lines(vs, decl@, i as int) == declaration_lines(vs, decl@, 0),
        decreases iris.len() - i,
    {
        let ghost before = decls@;
        push_str(&mut decls, "  <");
        push_all(&mut decls, decl);
        push_str(&mut decls, " rdf:about=\"");
        push_all(&mut decls, &iris[i]);
        push_str(&mut decls, "\"/>\n");
        proof {
            assert(vs[i as int] == iris@[i as int]@);
            assert(decls@ + declaration_lines(vs, decl@, i + 1) =~= before + declaration_lines(
                vs,
                decl@,
                i as int,
            ));
        }
        i += 1;
    }
    assert(decls@ =~= declaration_lines(vs, decl@, 0));
    let mut pairs: Vec<char> = Vec::new();
    let mut i: usize = 0;
    while i < iris.len()
        invariant
            i <= iris.len(),
            vs == views(iris@),
            pairs@ + disjoint_pairs(vs, disjoint@, i as int) == disjoint_pairs(vs, disjoint@, 0),
        decreases iris.len() - i,
    {
        let ghost row_start = pairs@;
        let mut j: usize = i + 1;
        while j < iris.len()
            invariant
                i < iris.len(),
                i + 1 <= j <= iris.len(),
                vs == views(iris@),
                pairs@ + disjoint_row(vs, disjoint@, i as int, j as int) == row_start
                    + disjoint_row(vs, disjoint@, i as int, i + 1),
            decreases iris.len() - j,
        {
            let ghost before = pairs@;
            push_str(&mut pairs, "  <rdf:Description rdf:about=\"");
            push_all(&mut pairs, &iris[i]);
            push_str(&mut pairs, "\">\n    <");
            push_all(&mut pairs, disjoint);
            push_str(&mut pairs, " rdf:resource=\"");
            push_all(&mut pairs, &iris[j]);
            push_str(&mut pairs, "\"/>\n  </rdf:Description>\n");
            proof {
                assert(vs[i as int] == iris@[i as int]@);
                assert(vs[j as int] == iris@[j as int]@);
                assert(pairs@ =~= before + disjoint_statement(vs[i as int], vs[j as int], disjoint@));
                assert(pairs@ + disjoint_row(vs, disjoint@, i as int, j + 1) =~= before
                    + disjoint_row(vs, disjoint@, i as int, j as int));
            }
            j += 1;
        }
        proof {
            assert(pairs@ =~= row_start + disjoint_row(vs, disjoint@, i as int, i + 1));
            assert(pairs@ + disjoint_pairs(vs, disjoint@, i + 1) =~= row_start + disjoint_pairs(
                vs,
                disjoint@,
                i as int,
            ));
        }
        i += 1;
    }
    assert(pairs@ =~= disjoint_pairs(vs, disjoint@, 0));
    push_all(&mut decls, &pairs);
    decls
}

/// The container element of the collections of one kind.
pub open spec fn container(properties: bool) -> Seq<char> {
    if properties {
        "owl:AllDisjointProperties"@
    } else {
        "owl:AllDisjointClasses"@
    }
}

/// The pairwise axiom of one kind.
pub open spec fn disjoint_tag(properties: bool) -> Seq<char> {
    if properties {
        "owl:propertyDisjointWith"@
    } else {
        "owl:disjointWith"@
    }
}

/// The declaration of the members of one kind.
pub open spec fn declaration_tag(properties: bool) -> Seq<char> {
    if properties {
        "owl:ObjectProperty"@
    } else {
        "owl:Class"@
    }
}

/// `<{container}`
pub open spec fn container_open(properties: bool) -> Seq<char> {
    seq!['<'] + container(properties)
}

/// The first container element of the kind replaced by declarations of
/// its members and a statement for every pair of members; `None` where the scan of the member
/// collection would step past the end of the text.
pub open spec fn disjoint_step(s: Seq<char>, properties: bool) -> Option<Seq<char>> {
    match find_from(s, 0, container_open(properties)) {
        None => Some(s),
        Some(st) => {
            let plain = contains(s.subrange(st, s.len() as int), "<owl:members"@);
            let members = if plain {
                "<owl:members"@
            } else {
                "<owl:distinctMembers"@
            };
            let close = if plain {
                "</owl:members>"@
            } else {
                "</owl:distinctMembers>"@
            };
            match find_from(s, st, members) {
                None => Some(s),
                Some(am) => match find_from(s, am, seq!['>']) {
                    None => Some(s),
                    Some(g) => match find_from(s, g + 1, close) {
                        None => Some(s),
                        Some(cs) => match about_values(s.subrange(g + 1, cs), 0) {
                            None => None,
                            Some(iris) => match find_from(
                                s,
                                st,
                                seq!['<', '/'] + container(properties) + seq!['>'],
                            ) {
                                None => Some(s),
                                Some(ce) => Some(s.subrange(0, st) + declaration_lines(
                                    iris,
                                    declaration_tag(properties),
                                    0,
                                ) + disjoint_pairs(iris, disjoint_tag(properties), 0) + s.subrange(
                                    ce + container(properties).len() + 3,
                                    s.len() as int,
                                )),
                            },
                        },
                    },
                },
            }
        },
    }
}

fn disjoint_step_exec(s: &Vec<char>, properties: bool) -> (r: Option<Vec<char>>)
    ensures
        match r {
            Some(v) => disjoint_step(s@, properties) == Some(v@),
            None => disjoint_step(s@, properties) is None,
        },
{
    proof {
        reveal_strlit("owl:AllDisjointProperties");
        reveal_strlit("owl:AllDisjointClasses");
        reveal_strlit(">");
        assert(">"@ =~= seq!['>']);
    }
    let name = if properties {
        chars_of("owl:AllDisjointProperties")
    } else {
        chars_of("owl:AllDisjointClasses")
    };
    let mut open: Vec<char> = vec!['<'];
    push_all(&mut open, &name);
    assert(open@ =~= container_open(properties));
    let st = match find(s, 0, &open) {
        None => return Some(copy(s)),
        Some(st) => st,
    };
    proof {
        lemma_find_from_bounds(s@, 0, open@);
    }
    let plain = contains_lit(&slice(s, st, s.len()), "<owl:members");
    let members = if plain {
        chars_of("<owl:members")
    } else {
        chars_of("<owl:distinctMembers")
    };
    let close = if plain {
        chars_of("</owl:members>")
    } else {
        chars_of("</owl:distinctMembers>")
    };
    let am = match find(s, st, &members) {
        None => return Some(copy(s)),
        Some(a) => a,
    };
    proof {
        lemma_find_from_bounds(s@, st as int, members@);
    }
    let g = match find_lit(s, am, ">") {
        None => return Some(copy(s)),
        Some(g) => g,
    };
    proof {
        lemma_find_from_bounds(s@, am as int, seq!['>']);
        assert(g < s.len());
    }
    let cs = match find(s, g + 1, &close) {
        None => return Some(copy(s)),
        Some(c) => c,
    };
    proof {
        lemma_find_from_bounds(s@, g + 1, close@);
    }
    let inner = slice(s, g + 1, cs);
    let iris = match about_values_exec(&inner) {
        None => return None,
        Some(v) => v,
    };
    let mut close_container: Vec<char> = vec!['<', '/'];
    push_all(&mut close_container, &name);
    close_container.push('>');
    assert(close_container@ =~= seq!['<', '/'] + container(properties) + seq!['>']);
    let ce = match find(s, st, &close_container) {
        None => return Some(copy(s)),
        Some(c) => c,
    };
    proof {
        lemma_find_from_bounds(s@, st as int, close_container@);
    }
    let disjoint = if properties {
        chars_of("owl:propertyDisjointWith")
    } else {
        chars_of("owl:disjointWith")
    };
    let decl = if properties {
        chars_of("owl:ObjectProperty")
    } else {
        chars_of("owl:Class")
    };
    let injections = injections_exec(&iris, &disjoint, &decl);
    let mut out = slice(s, 0, st);
    push_all(&mut out, &injections);
    push_range(&mut out, s, ce + name.len() + 3, s.len());
    Some(out)
}

/// The text after `n` rounds of the expansion loop of one kind: each round expands one
/// container while a container of the kind remains (`None` once a round would fail).
pub open spec fn disjoint_rounds(s: Seq<char>, properties: bool, n: nat) -> Option<Seq<char>>
    decreases n,
{
    if n == 0 {
        Some(s)
    } else {
        match disjoint_rounds(s, properties, (n - 1) as nat) {
            None => None,
            Some(t) => if contains(t, container_open(properties)) {
                disjoint_step(t, properties)
            } else {
                Some(t)
            },
        }
    }
}

/// The expansion loop of one kind comes to an end: some round leaves no container of the kind.
pub open spec fn disjoint_rounds_end(s: Seq<char>, properties: bool) -> bool {
    exists|n: nat| #[trigger]
        disjoint_rounds(s, properties, n) matches Some(t) && !contains(t, container_open(properties))
}

/// The text that the expansion loop of one kind leaves, where it comes to an end.
pub open spec fn disjoint_expanded_kind(s: Seq<char>, properties: bool) -> Seq<char> {
    let n = choose|n: nat| #[trigger]
        disjoint_rounds(s, properties, n) matches Some(t) && !contains(
            t,
            container_open(properties),
        );
    disjoint_rounds(s, properties, n)->0
}

proof fn lemma_rounds_some_before(s: Seq<char>, properties: bool, k: nat, m: nat)
    requires
        k <= m,
        disjoint_rounds(s, properties, m) is Some,
    ensures
        disjoint_rounds(s, properties, k) is Some,
    decreases m - k,
{
    if k < m {
        lemma_rounds_some_before(s, properties, k, (m - 1) as nat);
    }
}

proof fn lemma_rounds_settled(s: Seq<char>, properties: bool, k: nat, m: nat)
    requires
        k <= m,
        disjoint_rounds(s, properties, k) matches Some(t) && !contains(
            t,
            container_open(properties),
        ),
    ensures
        disjoint_rounds(s, properties, m) == disjoint_rounds(s, properties, k),
    decreases m - k,
{
    if k < m {
        lemma_rounds_settled(s, properties, k, (m - 1) as nat);
    }
}

fn expand_kind_exec(s: &Vec<char>, properties: bool) -> (r: Vec<char>)
    requires
        disjoint_rounds_end(s@, properties),
    ensures
        r@ == disjoint_expanded_kind(s@, properties),
{
    proof {
        reveal_strlit("<owl:AllDisjointProperties");
        reveal_strlit("<owl:AllDisjointClasses");
        reveal_strlit("owl:AllDisjointProperties");
        reveal_strlit("owl:AllDisjointClasses");
    }
    let ghost nw = choose|n: nat| #[trigger]
        disjoint_rounds(s@, properties, n) matches Some(t) && !contains(
            t,
            container_open(properties),
        );
    let open = if properties {
        chars_of("<owl:AllDisjointProperties")
    } else {
        chars_of("<owl:AllDisjointClasses")
    };
    assert(open@ =~= container_open(properties));
    let mut out = copy(s);
    let mut i: usize = 0;
    let ghost mut gi: nat = 0;
    while crate::text::contains_exec(&out, &open)
        invariant
            open@ == container_open(properties),
            disjoint_rounds(s@, properties, nw) matches Some(t) && !contains(
                t,
                container_open(properties),
            ),
            gi <= nw,
            disjoint_rounds(s@, properties, gi) == Some(out@),
            forall|j: nat|
                j < gi ==> (#[trigger] disjoint_rounds(s@, properties, j) matches Some(t)
                    && contains(t, container_open(properties))),
        decreases nw - gi,
    {
        proof {
            if gi == nw {
                assert(false);
            }
            lemma_rounds_some_before(s@, properties, gi + 1, nw);
        }
        let next = match disjoint_step_exec(&out, properties) {
            Some(v) => v,
            None => {
                assert(disjoint_rounds(s@, properties, gi + 1) is None);
                assert(false);
                return out;
            },
        };
        proof {
            assert(disjoint_rounds(s@, properties, gi + 1) == Some(next@));
            assert forall|j: nat| j < gi + 1 implies (#[trigger] disjoint_rounds(
                s@,
                properties,
                j,
            ) matches Some(t) && contains(t, container_open(properties))) by {
                if j < gi {
                } else {
                    assert(j == gi);
                }
            }
            gi = gi + 1;
        }
        out = next;
    }
    proof {
        lemma_rounds_settled(s@, properties, gi, nw);
    }
    out
}

/// `expand_all_disjoint_collections`: when the text mentions `AllDisjointClasses` or
/// `AllDisjointProperties`, the class containers are expanded until none is left, then the
/// property containers.
pub open spec fn disjoint_collections_expanded(s: Seq<char>) -> Seq<char> {
    if !contains(s, "AllDisjointClasses"@) && !contains(s, "AllDisjointProperties"@) {
        s
    } else {
        disjoint_expanded_kind(disjoint_expanded_kind(s, false), true)
    }
}

/// The inputs on which `expand_all_disjoint_collections` comes to an end: both expansion loops
/// stop with every container of their kind gone.
pub open spec fn disjoint_expansion_ends(s: Seq<char>) -> bool {
    (contains(s, "AllDisjointClasses"@) || contains(s, "AllDisjointProperties"@)) ==> (
    disjoint_rounds_end(s, false) && disjoint_rounds_end(disjoint_expanded_kind(s, false), true))
}

/// Expand `owl:AllDisjointClasses` / `owl:AllDisjointProperties` into pairwise disjoint axioms.
pub fn expand_all_disjoint_collections(input: &str) -> (r: String)
    requires
        disjoint_expansion_ends(input@),
    ensures
        r@ == disjoint_collections_expanded(input@),
{
    let s = chars_of(input);
    let out = disjoint_collections_chars(&s);
    string_of(&out)
}

/// `expand_all_disjoint_collections` on a character vector.
pub fn disjoint_collections_chars(s: &Vec<char>) -> (r: Vec<char>)
    requires
        disjoint_expansion_ends(s@),
    ensures
        r@ == disjoint_collections_expanded(s@),
{
    if !contains_lit(s, "AllDisjointClasses") && !contains_lit(s, "AllDisjointProperties") {
        return copy(s);
    }
    let classes = expand_kind_exec(s, false);
    expand_kind_exec(&classes, true)
}

/// Once `expand_all_disjoint_collections` has run on a text that mentions a container, no
/// `owl:AllDisjointClasses` container is left after the class loop, and no
/// `owl:AllDisjointProperties` container is left in the result.
pub proof fn lemma_disjoint_containers_expanded(s: Seq<char>)
    requires
        disjoint_expansion_ends(s),
        contains(s, "AllDisjointClasses"@) || contains(s, "AllDisjointProperties"@),
    ensures
        !contains(disjoint_expanded_kind(s, false), container_open(false)),
        !contains(disjoint_collections_expanded(s), container_open(true)),
{
    let n1 = choose|n: nat| #[trigger]
        disjoint_rounds(s, false, n) matches Some(t) && !contains(t, container_open(false));
    assert(disjoint_rounds(s, false, n1) matches Some(t) && !contains(t, container_open(false)));
    let c = disjoint_expanded_kind(s, false);
    let n2 = choose|n: nat| #[trigger]
        disjoint_rounds(c, true, n) matches Some(t) && !contains(t, container_open(true));
    assert(disjoint_rounds(c, true, n2) matches Some(t) && !contains(t, container_open(true)));
}


/// The expansion loop of one kind settles within `k` rounds.
pub open spec fn disjoint_rounds_within(s: Seq<char>, properties: bool, k: nat) -> bool {
    exists|n: nat| #![trigger disjoint_rounds(s, properties, n)]
        n <= k && (disjoint_rounds(s, properties, n) matches Some(t) && !contains(
            t,
            container_open(properties),
        ))
}

/// `expand_all_disjoint_collections` settles within `k` rounds of each of its loops.
pub open spec fn disjoint_expansion_within(s: Seq<char>, k: nat) -> bool {
    (contains(s, "AllDisjointClasses"@) || contains(s, "AllDisjointProperties"@)) ==> (
    disjoint_rounds_within(s, false, k) && disjoint_rounds_within(disjoint_expanded_kind(s, false), true, k))
}

/// A round that leaves a text holding a container unchanged repeats for ever.
proof fn lemma_rounds_stuck(s: Seq<char>, properties: bool, k: nat, m: nat, t: Seq<char>)
    requires
        k <= m,
        disjoint_rounds(s, properties, k) == Some(t),
        contains(t, container_open(properties)),
        disjoint_step(t, properties) == Some(t),
    ensures
        disjoint_rounds(s, properties, m) == Some(t),
    decreases m - k,
{
    if k < m {
        lemma_rounds_stuck(s, properties, k, (m - 1) as nat, t);
    }
}

/// The expansion loop of one kind, run for at most `max_rounds` rounds: the text it settles
/// on; else `Err(true)` where the loop would never end (a round fails, or leaves a text that
/// still holds a container unchanged), or `Err(false)` once `max_rounds` rounds have passed.
fn expand_kind_checked(s: &Vec<char>, properties: bool, max_rounds: usize) -> (r: Result<Vec<char>, bool>)
    ensures
        r matches Ok(v) ==> disjoint_rounds_end(s@, properties) && v@ == disjoint_expanded_kind(s@, properties),
        r matches Err(e) && e ==> !disjoint_rounds_end(s@, properties),
        disjoint_rounds_end(s@, properties) && disjoint_rounds_within(s@, properties, max_rounds as nat) ==> r is Ok,
{
    proof {
        reveal_strlit("<owl:AllDisjointProperties");
        reveal_strlit("owl:AllDisjointProperties");
        reveal_strlit("owl:AllDisjointClasses");
        reveal_strlit("<owl:AllDisjointClasses");
    }
    let open = if properties {
        chars_of("<owl:AllDisjointProperties")
    } else {
        chars_of("<owl:AllDisjointClasses")
    };
    assert(open@ =~= container_open(properties));
    let mut out = copy(s);
    let mut gi: usize = 0;
    while crate::text::contains_exec(&out, &open)
        invariant
            open@ == container_open(properties),
            gi <= max_rounds,
            disjoint_rounds(s@, properties, gi as nat) == Some(out@),
            forall|j: nat|
                j < gi ==> (#[trigger] disjoint_rounds(s@, properties, j) matches Some(t)
                    && contains(t, container_open(properties))),
        decreases max_rounds - gi,
    {
        let ghost g = gi as nat;
        if gi == max_rounds {
            proof {
                assert forall|n: nat| n <= max_rounds implies !(#[trigger] disjoint_rounds(s@, properties, n) matches Some(t)
                    && !contains(t, container_open(properties))) by {
                    if n < gi {
                        assert(disjoint_rounds(s@, properties, n) matches Some(t) && contains(t, container_open(properties)));
                    }
                }
            }
            return Err(false);
        }
        let next = match disjoint_step_exec(&out, properties) {
            Some(v) => v,
            None => {
                proof {
                    assert(disjoint_rounds(s@, properties, g + 1) is None);
                    assert forall|n: nat| !(#[trigger] disjoint_rounds(s@, properties, n) matches Some(t)
                        && !contains(t, container_open(properties))) by {
                        if n > g {
                            if disjoint_rounds(s@, properties, n) is Some {
                                lemma_rounds_some_before(s@, properties, g + 1, n);
                            }
                        } else if n < g {
                            assert(disjoint_rounds(s@, properties, n) matches Some(t) && contains(t, container_open(properties)));
                        }
                    }
                }
                return Err(true);
            },
        };
        if crate::xml::vec_eq(&next, &out) {
            proof {
                assert(disjoint_step(out@, properties) == Some(out@));
                assert forall|n: nat| !(#[trigger] disjoint_rounds(s@, properties, n) matches Some(t)
                    && !contains(t, container_open(properties))) by {
                    if n >= g {
                        lemma_rounds_stuck(s@, properties, g, n, out@);
                    } else {
                        assert(disjoint_rounds(s@, properties, n) matches Some(t) && contains(t, container_open(properties)));
                    }
                }
            }
            return Err(true);
        }
        proof {
            assert(disjoint_rounds(s@, properties, g + 1) == Some(next@));
            assert forall|j: nat| j < g + 1 implies (#[trigger] disjoint_rounds(s@, properties, j) matches Some(t)
                && contains(t, container_open(properties))) by {
                if j < g {
                } else {
                    assert(j == g);
                }
            }
        }
        out = next;
        gi = gi + 1;
    }
    proof {
        let g = gi as nat;
        assert(disjoint_rounds(s@, properties, g) matches Some(t) && !contains(t, container_open(properties)));
        let n = choose|n: nat| #[trigger]
            disjoint_rounds(s@, properties, n) matches Some(t) && !contains(t, container_open(properties));
        if n <= g {
            lemma_rounds_settled(s@, properties, n, g);
        } else {
            lemma_rounds_settled(s@, properties, g, n);
        }
    }
    Ok(out)
}

/// `expand_all_disjoint_collections`, run for at most `max_rounds` rounds of each loop: its
/// result where it settles; else `Err(true)` where it would never end, or `Err(false)` once a
/// loop has run `max_rounds` rounds.
pub fn disjoint_collections_checked(s: &Vec<char>, max_rounds: usize) -> (r: Result<Vec<char>, bool>)
    ensures
        r matches Ok(v) ==> disjoint_expansion_ends(s@) && v@ == disjoint_collections_expanded(s@),
        r matches Err(e) && e ==> !disjoint_expansion_ends(s@),
        disjoint_expansion_ends(s@) && disjoint_expansion_within(s@, max_rounds as nat) ==> r is Ok,
{
    if !contains_lit(s, "AllDisjointClasses") && !contains_lit(s, "AllDisjointProperties") {
        return Ok(copy(s));
    }
    let classes = match expand_kind_checked(s, false, max_rounds) {
        Ok(c) => c,
        Err(e) => return Err(e),
    };
    expand_kind_checked(&classes, true, max_rounds)
}


proof fn lemma_contains_left(a: Seq<char>, b: Seq<char>, p: Seq<char>)
    requires
        contains(a, p),
    ensures
        contains(a + b, p),
{
    let k = choose|k: int| matches_at(a, k, p);
    assert((a + b).subrange(k, k + p.len()) =~= a.subrange(k, k + p.len()));
    assert(matches_at(a + b, k, p));
}

proof fn lemma_contains_right(a: Seq<char>, b: Seq<char>, p: Seq<char>)
    requires
        contains(b, p),
    ensures
        contains(a + b, p),
{
    let k = choose|k: int| matches_at(b, k, p);
    assert((a + b).subrange(a.len() + k, a.len() + k + p.len()) =~= b.subrange(k, k + p.len()));
    assert(matches_at(a + b, a.len() + k, p));
}

proof fn lemma_row_states(iris: Seq<Seq<char>>, d: Seq<char>, i: int, j0: int, j: int)
    requires
        0 <= j0 <= j < iris.len(),
    ensures
        contains(disjoint_row(iris, d, i, j0), disjoint_statement(iris[i], iris[j], d)),
    decreases j - j0,
{
    let st = disjoint_statement(iris[i], iris[j0], d);
    let rest = disjoint_row(iris, d, i, j0 + 1);
    if j == j0 {
        assert((st + rest).subrange(0, st.len() as int) =~= st);
        assert(matches_at(st + rest, 0, st));
    } else {
        lemma_row_states(iris, d, i, j0 + 1, j);
        lemma_contains_right(st, rest, disjoint_statement(iris[i], iris[j], d));
    }
}

proof fn lemma_pairs_from_state(iris: Seq<Seq<char>>, d: Seq<char>, i0: int, i: int, j: int)
    requires
        0 <= i0 <= i < j < iris.len(),
    ensures
        contains(disjoint_pairs(iris, d, i0), disjoint_statement(iris[i], iris[j], d)),
    decreases i - i0,
{
    let row = disjoint_row(iris, d, i0, i0 + 1);
    let rest = disjoint_pairs(iris, d, i0 + 1);
    if i == i0 {
        lemma_row_states(iris, d, i, i + 1, j);
        lemma_contains_left(row, rest, disjoint_statement(iris[i], iris[j], d));
    } else {
        lemma_pairs_from_state(iris, d, i0 + 1, i, j);
        lemma_contains_right(row, rest, disjoint_statement(iris[i], iris[j], d));
    }
}

/// The expansion states every pair of distinct members disjoint: for each pair of positions
/// `i < j` of the member list, the injected statements hold the one that member `i` is
/// disjoint from member `j`.
pub proof fn lemma_every_pair_stated_disjoint(iris: Seq<Seq<char>>, d: Seq<char>, i: int, j: int)
    requires
        0 <= i < j < iris.len(),
    ensures
        contains(disjoint_pairs(iris, d, 0), disjoint_statement(iris[i], iris[j], d)),
{
    lemma_pairs_from_state(iris, d, 0, i, j);
}

/// Every member is declared: for each position `i`, the injected declarations hold
/// `<{decl} rdf:about="{iri}"/>` for member `i`.
pub proof fn lemma_every_member_declared(iris: Seq<Seq<char>>, decl: Seq<char>, i0: int, i: int)
    requires
        0 <= i0 <= i < iris.len(),
    ensures
        contains(
            declaration_lines(iris, decl, i0),
            "  <"@ + decl + " rdf:about=\""@ + iris[i] + "\"/>\n"@,
        ),
    decreases i - i0,
{
    let line = "  <"@ + decl + " rdf:about=\""@ + iris[i0] + "\"/>\n"@;
    let rest = declaration_lines(iris, decl, i0 + 1);
    assert(declaration_lines(iris, decl, i0) == line + rest);
    if i == i0 {
        assert((line + rest).subrange(0, line.len() as int) =~= line);
        assert(matches_at(line + rest, 0, line));
    } else {
        lemma_every_member_declared(iris, decl, i0 + 1, i);
        lemma_contains_right(line, rest, "  <"@ + decl + " rdf:about=\""@ + iris[i] + "\"/>\n"@);
    }
}
} // verus!
