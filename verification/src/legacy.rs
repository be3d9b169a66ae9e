//! Legacy RDF/XML spellings rewritten into the forms the RDF/XML reader expects.
use vstd::prelude::*;

use crate::text::{chars_of, contains, contains_lit, find_from, find_lit, is_whitespace, ends_with_unique, lemma_find_from_bounds, lemma_replace_absent, lemma_replace_from_avoids, lemma_replace_from_len, lemma_skip_ws_bounds, lemma_word_end_bounds, push_range, push_str, replace_all, replace_lit, skip_ws, skip_ws_exec, slice, string_of, word_end, word_end_exec};

verus! {

/// `normalize_relative_owl_uris`: the root-relative `/2001/XMLSchema#` datatypes and
/// `/2002/07/owl#` resources and subjects made absolute under `http://www.w3.org`.
pub open spec fn relative_owl_uris_normalized(s: Seq<char>) -> Seq<char> {
    let a = replace_all(
        s,
        "rdf:datatype=\"/2001/XMLSchema#"@,
        "rdf:datatype=\"http://www.w3.org/2001/XMLSchema#"@,
    );
    let b = replace_all(
        a,
        "rdf:datatype='/2001/XMLSchema#"@,
        "rdf:datatype='http://www.w3.org/2001/XMLSchema#"@,
    );
    let c = replace_all(
        b,
        "rdf:resource=\"/2002/07/owl#"@,
        "rdf:resource=\"http://www.w3.org/2002/07/owl#"@,
    );
    let d = replace_all(
        c,
        "rdf:resource='/2002/07/owl#"@,
        "rdf:resource='http://www.w3.org/2002/07/owl#"@,
    );
    let e = replace_all(d, "rdf:about=\"/2002/07/owl#"@, "rdf:about=\"http://www.w3.org/2002/07/owl#"@);
    replace_all(e, "rdf:about='/2002/07/owl#"@, "rdf:about='http://www.w3.org/2002/07/owl#"@)
}

/// Rewrite legacy relative `rdf:datatype` / `rdf:resource` IRIs (`/2001/XMLSchema#...`).
pub fn normalize_relative_owl_uris(input: &str) -> (r: String)
    ensures
        r@ == relative_owl_uris_normalized(input@),
{
    proof {
        reveal_strlit("rdf:datatype=\"/2001/XMLSchema#");
        reveal_strlit("rdf:datatype='/2001/XMLSchema#");
        reveal_strlit("rdf:resource=\"/2002/07/owl#");
        reveal_strlit("rdf:resource='/2002/07/owl#");
        reveal_strlit("rdf:about=\"/2002/07/owl#");
        reveal_strlit("rdf:about='/2002/07/owl#");
    }
    let s = chars_of(input);
    let a = replace_lit(
        &s,
        "rdf:datatype=\"/2001/XMLSchema#",
        "rdf:datatype=\"http://www.w3.org/2001/XMLSchema#",
    );
    let b = replace_lit(
        &a,
        "rdf:datatype='/2001/XMLSchema#",
        "rdf:datatype='http://www.w3.org/2001/XMLSchema#",
    );
    let c = replace_lit(
        &b,
        "rdf:resource=\"/2002/07/owl#",
        "rdf:resource=\"http://www.w3.org/2002/07/owl#",
    );
    let d = replace_lit(
        &c,
        "rdf:resource='/2002/07/owl#",
        "rdf:resource='http://www.w3.org/2002/07/owl#",
    );
    let e = replace_lit(&d, "rdf:about=\"/2002/07/owl#", "rdf:about=\"http://www.w3.org/2002/07/owl#");
    let f = replace_lit(&e, "rdf:about='/2002/07/owl#", "rdf:about='http://www.w3.org/2002/07/owl#");
    string_of(&f)
}

/// One rewrite `from` → `to` of `normalize_relative_owl_uris` leaves no `q` behind where none
/// was, or none at all where `q` is `from`: both `q` and `to` end with their only `#`, and `to`
/// does not end with `q`.
proof fn lemma_rewrite_leaves_none(s: Seq<char>, from: Seq<char>, to: Seq<char>, q: Seq<char>)
    requires
        from.len() > 0,
        ends_with_unique(q, '#'),
        ends_with_unique(to, '#'),
        q.len() <= to.len(),
        q[0] == 'r',
        to[to.len() - q.len()] != 'r',
        q == from || !contains(s, q),
    ensures
        !contains(replace_all(s, from, to), q),
{
    assert(to.subrange(to.len() - q.len(), to.len() as int)[0] == to[to.len() - q.len()]);
    lemma_replace_from_avoids(s, 0, from, to, q, '#');
}

/// After `normalize_relative_owl_uris` none of the root-relative forms that it rewrites is left,
/// so running it again changes nothing; and it never shortens the text.
pub proof fn lemma_relative_owl_uris_settled(s: Seq<char>)
    ensures
        !contains(relative_owl_uris_normalized(s), "rdf:datatype=\"/2001/XMLSchema#"@),
        !contains(relative_owl_uris_normalized(s), "rdf:datatype='/2001/XMLSchema#"@),
        !contains(relative_owl_uris_normalized(s), "rdf:resource=\"/2002/07/owl#"@),
        !contains(relative_owl_uris_normalized(s), "rdf:resource='/2002/07/owl#"@),
        !contains(relative_owl_uris_normalized(s), "rdf:about=\"/2002/07/owl#"@),
        !contains(relative_owl_uris_normalized(s), "rdf:about='/2002/07/owl#"@),
        relative_owl_uris_normalized(relative_owl_uris_normalized(s)) == relative_owl_uris_normalized(s),
        relative_owl_uris_normalized(s).len() >= s.len(),
{
    reveal_strlit("rdf:datatype=\"/2001/XMLSchema#");
    reveal_strlit("rdf:datatype='/2001/XMLSchema#");
    reveal_strlit("rdf:resource=\"/2002/07/owl#");
    reveal_strlit("rdf:resource='/2002/07/owl#");
    reveal_strlit("rdf:about=\"/2002/07/owl#");
    reveal_strlit("rdf:about='/2002/07/owl#");
    reveal_strlit("rdf:datatype=\"http://www.w3.org/2001/XMLSchema#");
    reveal_strlit("rdf:datatype='http://www.w3.org/2001/XMLSchema#");
    reveal_strlit("rdf:resource=\"http://www.w3.org/2002/07/owl#");
    reveal_strlit("rdf:resource='http://www.w3.org/2002/07/owl#");
    reveal_strlit("rdf:about=\"http://www.w3.org/2002/07/owl#");
    reveal_strlit("rdf:about='http://www.w3.org/2002/07/owl#");
    let f1 = "rdf:datatype=\"/2001/XMLSchema#"@;
    let f2 = "rdf:datatype='/2001/XMLSchema#"@;
    let f3 = "rdf:resource=\"/2002/07/owl#"@;
    let f4 = "rdf:resource='/2002/07/owl#"@;
    let f5 = "rdf:about=\"/2002/07/owl#"@;
    let f6 = "rdf:about='/2002/07/owl#"@;
    let t1 = "rdf:datatype=\"http://www.w3.org/2001/XMLSchema#"@;
    let t2 = "rdf:datatype='http://www.w3.org/2001/XMLSchema#"@;
    let t3 = "rdf:resource=\"http://www.w3.org/2002/07/owl#"@;
    let t4 = "rdf:resource='http://www.w3.org/2002/07/owl#"@;
    let t5 = "rdf:about=\"http://www.w3.org/2002/07/owl#"@;
    let t6 = "rdf:about='http://www.w3.org/2002/07/owl#"@;
    assert(ends_with_unique(f1, '#') && ends_with_unique(f2, '#') && ends_with_unique(f3, '#'));
    assert(ends_with_unique(f4, '#') && ends_with_unique(f5, '#') && ends_with_unique(f6, '#'));
    assert(ends_with_unique(t1, '#') && ends_with_unique(t2, '#') && ends_with_unique(t3, '#'));
    assert(ends_with_unique(t4, '#') && ends_with_unique(t5, '#') && ends_with_unique(t6, '#'));
    let a = replace_all(s, f1, t1);
    let b = replace_all(a, f2, t2);
    let c = replace_all(b, f3, t3);
    let d = replace_all(c, f4, t4);
    let e = replace_all(d, f5, t5);
    let g = replace_all(e, f6, t6);
    assert(g == relative_owl_uris_normalized(s));
    lemma_rewrite_leaves_none(s, f1, t1, f1);
    lemma_rewrite_leaves_none(a, f2, t2, f1);
    lemma_rewrite_leaves_none(b, f3, t3, f1);
    lemma_rewrite_leaves_none(c, f4, t4, f1);
    lemma_rewrite_leaves_none(d, f5, t5, f1);
    lemma_rewrite_leaves_none(e, f6, t6, f1);
    lemma_rewrite_leaves_none(a, f2, t2, f2);
    lemma_rewrite_leaves_none(b, f3, t3, f2);
    lemma_rewrite_leaves_none(c, f4, t4, f2);
    lemma_rewrite_leaves_none(d, f5, t5, f2);
    lemma_rewrite_leaves_none(e, f6, t6, f2);
    lemma_rewrite_leaves_none(b, f3, t3, f3);
    lemma_rewrite_leaves_none(c, f4, t4, f3);
    lemma_rewrite_leaves_none(d, f5, t5, f3);
    lemma_rewrite_leaves_none(e, f6, t6, f3);
    lemma_rewrite_leaves_none(c, f4, t4, f4);
    lemma_rewrite_leaves_none(d, f5, t5, f4);
    lemma_rewrite_leaves_none(e, f6, t6, f4);
    lemma_rewrite_leaves_none(d, f5, t5, f5);
    lemma_rewrite_leaves_none(e, f6, t6, f5);
    lemma_rewrite_leaves_none(e, f6, t6, f6);
    lemma_replace_absent(g, f1, t1);
    lemma_replace_absent(g, f2, t2);
    lemma_replace_absent(g, f3, t3);
    lemma_replace_absent(g, f4, t4);
    lemma_replace_absent(g, f5, t5);
    lemma_replace_absent(g, f6, t6);
    lemma_replace_from_len(s, 0, f1, t1);
    lemma_replace_from_len(a, 0, f2, t2);
    lemma_replace_from_len(b, 0, f3, t3);
    lemma_replace_from_len(c, 0, f4, t4);
    lemma_replace_from_len(d, 0, f5, t5);
    lemma_replace_from_len(e, 0, f6, t6);
}

/// `normalize_rdfs_class_elements`: `rdfs:Class` elements renamed to `owl:Class`, and the
/// `owl` prefix declared on the root element when the text then uses `owl:Class` without
/// declaring it.
pub open spec fn rdfs_classes_normalized(s: Seq<char>) -> Seq<char> {
    if !contains(s, "rdfs:Class"@) {
        s
    } else {
        let out = replace_all(
            replace_all(s, "<rdfs:Class"@, "<owl:Class"@),
            "</rdfs:Class>"@,
            "</owl:Class>"@,
        );
        if contains(out, "owl:Class"@) && !contains(out, "xmlns:owl"@) {
            match find_from(out, 0, "<rdf:RDF"@) {
                None => out,
                Some(rs) => match find_from(out, rs, seq!['>']) {
                    None => out,
                    Some(g) => out.subrange(0, g) + " xmlns:owl=\"http://www.w3.org/2002/07/owl#\""@
                        + out.subrange(g, out.len() as int),
                },
            }
        } else {
            out
        }
    }
}

/// Map legacy `rdfs:Class` declarations to `owl:Class`.
pub fn normalize_rdfs_class_elements(input: &str) -> (r: String)
    ensures
        r@ == rdfs_classes_normalized(input@),
{
    proof {
        reveal_strlit("<rdfs:Class");
        reveal_strlit("</rdfs:Class>");
        reveal_strlit(">");
        assert(">"@ =~= seq!['>']);
    }
    let s = chars_of(input);
    if !contains_lit(&s, "rdfs:Class") {
        return string_of(&s);
    }
    let a = replace_lit(&s, "<rdfs:Class", "<owl:Class");
    let out = replace_lit(&a, "</rdfs:Class>", "</owl:Class>");
    if contains_lit(&out, "owl:Class") && !contains_lit(&out, "xmlns:owl") {
        if let Some(rs) = find_lit(&out, 0, "<rdf:RDF") {
            proof {
                lemma_find_from_bounds(out@, 0, "<rdf:RDF"@);
            }
            if let Some(g) = find_lit(&out, rs, ">") {
                proof {
                    lemma_find_from_bounds(out@, rs as int, seq!['>']);
                }
                let mut r = slice(&out, 0, g);
                push_str(&mut r, " xmlns:owl=\"http://www.w3.org/2002/07/owl#\"");
                push_range(&mut r, &out, g, out.len());
                return string_of(&r);
            }
        }
    }
    string_of(&out)
}

/// The words of `t` from index `i` on (`split_whitespace`), each preceded by one space.
pub open spec fn spaced_words(t: Seq<char>, i: int) -> Seq<char>
    decreases t.len() - i,
{
    if i < 0 || i > t.len() {
        Seq::empty()
    } else {
        let a = skip_ws(t, i);
        if a >= t.len() {
            Seq::empty()
        } else {
            proof {
                lemma_skip_ws_bounds(t, i);
                lemma_word_end_bounds(t, a + 1);
                assert(word_end(t, a) == word_end(t, a + 1));
            }
            seq![' '] + t.subrange(a, word_end(t, a)) + spaced_words(t, word_end(t, a))
        }
    }
}

/// The words of `t` joined by single spaces (`split_whitespace().collect().join(" ")`).
pub open spec fn collapse_whitespace(t: Seq<char>) -> Seq<char> {
    let a = skip_ws(t, 0);
    if a >= t.len() {
        Seq::empty()
    } else {
        t.subrange(a, word_end(t, a)) + spaced_words(t, word_end(t, a))
    }
}

fn collapse_whitespace_exec(t: &Vec<char>) -> (r: Vec<char>)
    ensures
        r@ == collapse_whitespace(t@),
{
    let a = skip_ws_exec(t, 0);
    if a >= t.len() {
        return Vec::new();
    }
    proof {
        lemma_skip_ws_bounds(t@, 0);
        lemma_word_end_bounds(t@, a as int);
    }
    let e = word_end_exec(t, a);
    let mut out = slice(t, a, e);
    let mut i = e;
    while i < t.len()
        invariant
            i <= t.len(),
            out@ + spaced_words(t@, i as int) == collapse_whitespace(t@),
        decreases t.len() - i,
    {
        let ghost before = out@;
        let a2 = skip_ws_exec(t, i);
        if a2 >= t.len() {
            assert(out@ =~= out@ + spaced_words(t@, i as int));
            return out;
        }
        proof {
            lemma_word_end_bounds(t@, a2 as int);
        }
        let e2 = word_end_exec(t, a2);
        out.push(' ');
        push_range(&mut out, t, a2, e2);
        assert(out@ + spaced_words(t@, e2 as int) =~= before + spaced_words(t@, i as int));
        i = e2;
    }
    assert(out@ =~= out@ + spaced_words(t@, i as int));
    out
}

/// `normalize_multiline_rdf_root_tag`: a root `<rdf:RDF ...>` open tag that spans lines is
/// collapsed onto one line, its words joined by single spaces.
pub open spec fn root_tag_collapsed(s: Seq<char>) -> Seq<char> {
    match find_from(s, 0, "<rdf:RDF"@) {
        None => s,
        Some(rs) => match find_from(s, rs, seq!['>']) {
            None => s,
            Some(g) => {
                let root = s.subrange(rs, g + 1);
                if !contains(root, seq!['\n']) && !contains(root, seq!['\r']) {
                    s
                } else {
                    s.subrange(0, rs) + collapse_whitespace(root) + s.subrange(g + 1, s.len() as int)
                }
            },
        },
    }
}

/// Collapse a multiline `<rdf:RDF ...>` opening tag onto one line.
pub fn normalize_multiline_rdf_root_tag(input: &str) -> (r: String)
    ensures
        r@ == root_tag_collapsed(input@),
{
    proof {
        reveal_strlit(">");
        assert(">"@ =~= seq!['>']);
        reveal_strlit("\n");
        reveal_strlit("\r");
        assert("\n"@ =~= seq!['\n']);
        assert("\r"@ =~= seq!['\r']);
    }
    let s = chars_of(input);
    let rs = match find_lit(&s, 0, "<rdf:RDF") {
        None => return string_of(&s),
        Some(r) => r,
    };
    proof {
        lemma_find_from_bounds(s@, 0, "<rdf:RDF"@);
    }
    let g = match find_lit(&s, rs, ">") {
        None => return string_of(&s),
        Some(g) => g,
    };
    proof {
        lemma_find_from_bounds(s@, rs as int, seq!['>']);
        assert(g < s.len());
    }
    let root = slice(&s, rs, g + 1);
    if !contains_lit(&root, "\n") && !contains_lit(&root, "\r") {
        return string_of(&s);
    }
    let mut out = slice(&s, 0, rs);
    let collapsed = collapse_whitespace_exec(&root);
    crate::text::push_all(&mut out, &collapsed);
    push_range(&mut out, &s, g + 1, s.len());
    string_of(&out)
}

/// The words that `spaced_words` joins hold no line break.
proof fn lemma_spaced_words_single_line(t: Seq<char>, i: int)
    ensures
        forall|k: int|
            0 <= k < spaced_words(t, i).len() ==> spaced_words(t, i)[k] != '\n'
                && spaced_words(t, i)[k] != '\r',
    decreases t.len() - i,
{
    if 0 <= i <= t.len() {
        let a = skip_ws(t, i);
        if a < t.len() {
            lemma_skip_ws_bounds(t, i);
            lemma_word_end_bounds(t, a);
            lemma_word_end_bounds(t, a + 1);
            let e = word_end(t, a);
            lemma_spaced_words_single_line(t, e);
            let w = t.subrange(a, e);
            let r = spaced_words(t, e);
            assert(spaced_words(t, i) == seq![' '] + w + r);
            assert forall|k: int| 0 <= k < w.len() implies w[k] != '\n' && w[k] != '\r' by {
                assert(!is_whitespace(t[a + k]));
            }
        }
    }
}

/// A root tag collapsed by `normalize_multiline_rdf_root_tag` lies on one line: its words are
/// joined by single spaces and hold no line break.
pub proof fn lemma_collapsed_tag_single_line(t: Seq<char>)
    ensures
        forall|k: int|
            0 <= k < collapse_whitespace(t).len() ==> collapse_whitespace(t)[k] != '\n'
                && collapse_whitespace(t)[k] != '\r',
{
    let a = skip_ws(t, 0);
    if a < t.len() {
        lemma_skip_ws_bounds(t, 0);
        lemma_word_end_bounds(t, a);
        let e = word_end(t, a);
        lemma_spaced_words_single_line(t, e);
        let w = t.subrange(a, e);
        assert forall|k: int| 0 <= k < w.len() implies w[k] != '\n' && w[k] != '\r' by {
            assert(!is_whitespace(t[a + k]));
        }
    }
}

} // verus!
