//! Merging two OWL functional-syntax documents into one ontology.
use vstd::prelude::*;

use crate::error::Error;
use crate::text::{chars_of, find_from, find_lit, index_of, index_of_exec, lemma_find_from_bounds, push_all, slice, starts_with, string_of, trim, trim_exec, at_lit};

verus! {

/// The scan of `find_ofn_ontology_close` from index `i`: `depth` forms open, inside a quoted
/// string or not, after a backslash in it or not.
pub open spec fn ofn_close_scan(t: Seq<char>, i: int, depth: nat, in_str: bool, escape: bool) -> Option<
    int,
>
    decreases t.len() - i,
{
    if i < 0 || i >= t.len() {
        None
    } else {
        let ch = t[i];
        if in_str {
            if escape {
                ofn_close_scan(t, i + 1, depth, true, false)
            } else if ch == '\\' {
                ofn_close_scan(t, i + 1, depth, true, true)
            } else if ch == '"' {
                ofn_close_scan(t, i + 1, depth, false, false)
            } else {
                ofn_close_scan(t, i + 1, depth, true, false)
            }
        } else if ch == '"' {
            ofn_close_scan(t, i + 1, depth, true, escape)
        } else if ch == '(' {
            ofn_close_scan(t, i + 1, depth + 1, false, escape)
        } else if ch == ')' {
            if depth <= 1 {
                Some(i)
            } else {
                ofn_close_scan(t, i + 1, (depth - 1) as nat, false, escape)
            }
        } else {
            ofn_close_scan(t, i + 1, depth, false, escape)
        }
    }
}

/// `find_ofn_ontology_close`: the index of the `)` that closes the first `Ontology(` form,
/// parentheses inside quoted strings (with backslash escapes) not counted.
pub open spec fn ofn_close(t: Seq<char>) -> Option<int> {
    match find_from(t, 0, "Ontology("@) {
        None => None,
        Some(k) => ofn_close_scan(t, k + 9, 1, false, false),
    }
}

proof fn lemma_ofn_close_scan_bounds(t: Seq<char>, i: int, depth: nat, in_str: bool, escape: bool)
    requires
        0 <= i,
    ensures
        ofn_close_scan(t, i, depth, in_str, escape) matches Some(c) ==> i <= c < t.len(),
    decreases t.len() - i,
{
    if i < t.len() {
        let ch = t[i];
        if in_str {
            if escape {
                lemma_ofn_close_scan_bounds(t, i + 1, depth, true, false);
            } else if ch == '\\' {
                lemma_ofn_close_scan_bounds(t, i + 1, depth, true, true);
            } else if ch == '"' {
                lemma_ofn_close_scan_bounds(t, i + 1, depth, false, false);
            } else {
                lemma_ofn_close_scan_bounds(t, i + 1, depth, true, false);
            }
        } else if ch == '"' {
            lemma_ofn_close_scan_bounds(t, i + 1, depth, true, escape);
        } else if ch == '(' {
            lemma_ofn_close_scan_bounds(t, i + 1, depth + 1, false, escape);
        } else if ch == ')' {
            if depth > 1 {
                lemma_ofn_close_scan_bounds(t, i + 1, (depth - 1) as nat, false, escape);
            }
        } else {
            lemma_ofn_close_scan_bounds(t, i + 1, depth, false, escape);
        }
    }
}

/// Index of the closing `)` of the outer `Ontology(...)` form, respecting quoted strings.
pub fn find_ofn_ontology_close(t: &Vec<char>) -> (r: Option<usize>)
    ensures
        match r {
            Some(c) => ofn_close(t@) == Some(c as int) && c < t.len(),
            None => ofn_close(t@) is None,
        },
{
    proof {
        reveal_strlit("Ontology(");
    }
    let k = match find_lit(t, 0, "Ontology(") {
        None => return None,
        Some(k) => k,
    };
    proof {
        lemma_find_from_bounds(t@, 0, "Ontology("@);
        lemma_ofn_close_scan_bounds(t@, k + 9, 1, false, false);
        assert(k + 9 <= t.len());
    }
    let start = k + 9;
    let mut i = start;
    let mut depth: usize = 1;
    let mut in_str = false;
    let mut escape = false;
    while i < t.len()
        invariant
            9 <= start <= i,
            1 <= depth <= i - start + 1,
            ofn_close(t@) == ofn_close_scan(t@, i as int, depth as nat, in_str, escape),
        decreases t.len() - i,
    {
        let ch = t[i];
        if in_str {
            if escape {
                escape = false;
            } else if ch == '\\' {
                escape = true;
            } else if ch == '"' {
                in_str = false;
            }
        } else if ch == '"' {
            in_str = true;
        } else if ch == '(' {
            depth = depth + 1;
        } else if ch == ')' {
            if depth <= 1 {
                return Some(i);
            }
            depth = depth - 1;
        }
        i = i + 1;
    }
    None
}

/// `extract_ofn_axiom_body`: the text inside the first `Ontology(...)` form, trimmed, without a
/// leading ontology IRI (up to the first newline, else the first space), with one space in
/// front.
pub open spec fn ofn_body(t: Seq<char>) -> Option<Seq<char>> {
    match find_from(t, 0, "Ontology("@) {
        None => None,
        Some(k) => match ofn_close(t) {
            None => None,
            Some(c) => {
                let body = trim(t.subrange(k + 9, c));
                let body2 = if starts_with(body, "<"@) {
                    match index_of(body, '\n') {
                        Some(n) => trim(body.subrange(n + 1, body.len() as int)),
                        None => match index_of(body, ' ') {
                            Some(sp) => trim(body.subrange(sp + 1, body.len() as int)),
                            None => body,
                        },
                    }
                } else {
                    body
                };
                Some(seq![' '] + body2)
            },
        },
    }
}

/// `extract_ofn_axiom_body`.
pub fn extract_ofn_axiom_body(t: &Vec<char>) -> (r: Option<Vec<char>>)
    ensures
        match r {
            Some(v) => ofn_body(t@) == Some(v@),
            None => ofn_body(t@) is None,
        },
{
    proof {
        reveal_strlit("Ontology(");
    }
    let k = match find_lit(t, 0, "Ontology(") {
        None => return None,
        Some(k) => k,
    };
    proof {
        lemma_find_from_bounds(t@, 0, "Ontology("@);
        lemma_ofn_close_scan_bounds(t@, k + 9, 1, false, false);
        assert(k + 9 <= t.len());
    }
    let c = match find_ofn_ontology_close(t) {
        None => return None,
        Some(c) => c,
    };
    let body = trim_exec(&slice(t, k + 9, c));
    let body2 = if at_lit(&body, 0, "<") {
        match index_of_exec(&body, '\n') {
            Some(n) => {
                proof {
                    lemma_find_from_bounds(body@, 0, seq!['\n']);
                    assert(n < body.len());
                }
                trim_exec(&slice(&body, n + 1, body.len()))
            },
            None => match index_of_exec(&body, ' ') {
                Some(sp) => {
                    proof {
                        lemma_find_from_bounds(body@, 0, seq![' ']);
                        assert(sp < body.len());
                    }
                    trim_exec(&slice(&body, sp + 1, body.len()))
                },
                None => body,
            },
        }
    } else {
        body
    };
    let mut out: Vec<char> = vec![' '];
    push_all(&mut out, &body2);
    assert(out@ =~= seq![' '] + body2@);
    Some(out)
}

/// The text of an error: `Parse(msg)`.
pub open spec fn is_parse_error(e: Error, msg: Seq<char>) -> bool {
    e matches Error::Parse(m) && m@ == msg
}

/// `merge_ofn_documents`: the base document up to the `)` that closes its ontology, then the
/// axioms of the incremental document, then `)`.  Fails when the incremental document has no
/// ontology body or the base one no closing `)`.
pub open spec fn ofn_merged(base: Seq<char>, incremental: Seq<char>) -> Option<Seq<char>> {
    match ofn_body(incremental) {
        None => None,
        Some(axioms) => match ofn_close(base) {
            None => None,
            Some(c) => Some(base.subrange(0, c) + axioms + seq![')']),
        },
    }
}

/// Append the axioms of `incremental` to the ontology of `base`, both in OWL functional syntax.
pub fn merge_ofn_documents(base: &str, incremental: &str) -> (r: Result<String, Error>)
    ensures
        match r {
            Ok(m) => ofn_merged(base@, incremental@) == Some(m@),
            Err(e) => ofn_merged(base@, incremental@) is None && (if ofn_body(incremental@) is None {
                is_parse_error(e, "incremental OFN missing Ontology(...) body"@)
            } else {
                is_parse_error(e, "base OFN missing closing ')'"@)
            }),
        },
{
    let b = chars_of(base);
    let inc = chars_of(incremental);
    let axioms = match extract_ofn_axiom_body(&inc) {
        None => {
            return Err(Error::Parse(String::from_str("incremental OFN missing Ontology(...) body")));
        },
        Some(a) => a,
    };
    let c = match find_ofn_ontology_close(&b) {
        None => {
            return Err(Error::Parse(String::from_str("base OFN missing closing ')'")));
        },
        Some(c) => c,
    };
    let mut out = slice(&b, 0, c);
    push_all(&mut out, &axioms);
    out.push(')');
    Ok(string_of(&out))
}


/// Reading the characters of `t` in `[a, k)` from outside any quoted string: whether a quoted
/// string is open after them, and whether that string's last character is a backslash that
/// escapes the next one.
pub open spec fn string_state(t: Seq<char>, a: int, k: int) -> (bool, bool)
    decreases k - a,
{
    if k <= a {
        (false, false)
    } else {
        let before = string_state(t, a, k - 1);
        let ch = t[k - 1];
        if before.0 {
            if before.1 {
                (true, false)
            } else if ch == '\\' {
                (true, true)
            } else if ch == '"' {
                (false, false)
            } else {
                (true, false)
            }
        } else if ch == '"' {
            (true, false)
        } else {
            (false, false)
        }
    }
}

/// The number of forms open after the characters of `t` in `[a, k)`, starting inside one form:
/// each `(` outside a quoted string opens one, each `)` outside a quoted string closes one.
pub open spec fn paren_depth(t: Seq<char>, a: int, k: int) -> int
    decreases k - a,
{
    if k <= a {
        1
    } else {
        let d = paren_depth(t, a, k - 1);
        let outside = !string_state(t, a, k - 1).0;
        if outside && t[k - 1] == '(' {
            d + 1
        } else if outside && t[k - 1] == ')' {
            d - 1
        } else {
            d
        }
    }
}

proof fn lemma_close_scan_meaning(t: Seq<char>, a: int, i: int, depth: nat)
    requires
        0 <= a <= i <= t.len(),
        depth as int == paren_depth(t, a, i),
        depth >= 1,
        !string_state(t, a, i).0 ==> !string_state(t, a, i).1,
        forall|p: int| a <= p < i ==> #[trigger] paren_depth(t, a, p + 1) >= 1,
    ensures
        match ofn_close_scan(t, i, depth, string_state(t, a, i).0, string_state(t, a, i).1) {
            Some(c) => i <= c < t.len() && t[c] == ')' && !string_state(t, a, c).0 && paren_depth(
                t,
                a,
                c,
            ) == 1 && forall|p: int| a <= p < c ==> #[trigger] paren_depth(t, a, p + 1) >= 1,
            None => forall|p: int| a <= p < t.len() ==> #[trigger] paren_depth(t, a, p + 1) >= 1,
        },
    decreases t.len() - i,
{
    if i < t.len() {
        let st = string_state(t, a, i);
        let ch = t[i];
        assert(string_state(t, a, i + 1) == (if st.0 {
            if st.1 {
                (true, false)
            } else if ch == '\\' {
                (true, true)
            } else if ch == '"' {
                (false, false)
            } else {
                (true, false)
            }
        } else if ch == '"' {
            (true, false)
        } else {
            (false, false)
        }));
        if !st.0 && ch == ')' && depth <= 1 {
        } else {
            let d2: nat = if !st.0 && ch == '(' {
                depth + 1
            } else if !st.0 && ch == ')' {
                (depth - 1) as nat
            } else {
                depth
            };
            assert(paren_depth(t, a, i + 1) == d2);
            lemma_close_scan_meaning(t, a, i + 1, d2);
        }
    }
}

/// The `)` that `find_ofn_ontology_close` gives closes the first `Ontology(` form: it lies
/// outside every quoted string, the forms opened since `Ontology(` (parentheses inside quoted
/// strings, with backslash escapes, not counted) are all closed before it, and no earlier `)`
/// closes the form. Where it gives none, the form is never closed.
pub proof fn lemma_ontology_close_outside_strings(t: Seq<char>)
    ensures
        ofn_close(t) matches Some(c) ==> (find_from(t, 0, "Ontology("@) matches Some(k) && k + 9 <= c
            < t.len() && t[c] == ')' && !string_state(t, k + 9, c).0 && paren_depth(t, k + 9, c) == 1
            && forall|p: int| k + 9 <= p < c ==> #[trigger] paren_depth(t, k + 9, p + 1) >= 1),
        ofn_close(t) is None ==> (find_from(t, 0, "Ontology("@) matches Some(k) ==> forall|p: int|
            k + 9 <= p < t.len() ==> #[trigger] paren_depth(t, k + 9, p + 1) >= 1),
{
    reveal_strlit("Ontology(");
    lemma_find_from_bounds(t, 0, "Ontology("@);
    if let Some(k) = find_from(t, 0, "Ontology("@) {
        assert(string_state(t, k + 9, k + 9) == (false, false));
        assert(paren_depth(t, k + 9, k + 9) == 1);
        lemma_close_scan_meaning(t, k + 9, k + 9, 1);
    }
}
} // verus!
