//! Serialization formats and their detection from file extensions and headers.
use vstd::prelude::*;

use crate::text::{
    at_lit, chars_of, contains, contains_lit, is_whitespace, lemma_skip_ws_bounds, matches_at, skip_ws,
    starts_with, trim_start, trim_start_exec,
};

verus! {

/// Supported ontology serialization formats.
#[derive(Debug, Clone, Copy, PartialEq, Eq, Structural)]
pub enum Format {
    /// OWL/XML syntax.
    OwlXml,
    /// RDF/XML syntax.
    RdfXml,
    /// Turtle / RDF Turtle.
    Turtle,
    /// OWL Functional Syntax (`.ofn`, `.func`).
    Functional,
}

/// Decodes bytes as UTF-8 (`std::str::from_utf8`): a string exactly when the bytes are valid
/// UTF-8, holding the characters they encode.
#[verifier::external_body]
fn str_from_utf8(bytes: &[u8]) -> (r: Option<&str>)
    ensures
        r is Some <==> vstd::utf8::valid_utf8(bytes@),
        r matches Some(s) ==> s@ == vstd::utf8::decode_utf8(bytes@),
{
    std::str::from_utf8(bytes).ok()
}

/// The characters that valid UTF-8 bytes encode.
pub open spec fn utf8_text(bytes: Seq<u8>) -> Option<Seq<char>> {
    if vstd::utf8::valid_utf8(bytes) {
        Some(vstd::utf8::decode_utf8(bytes))
    } else {
        None
    }
}

fn utf8_chars(bytes: &[u8]) -> (r: Option<Vec<char>>)
    ensures
        match r {
            Some(v) => utf8_text(bytes@) == Some(v@),
            None => utf8_text(bytes@) is None,
        },
{
    match str_from_utf8(bytes) {
        Some(s) => Some(chars_of(s)),
        None => None,
    }
}

/// A header in OWL Functional Syntax starts, after leading whitespace, with `Prefix(` or
/// `Ontology(`.
pub open spec fn is_functional_header(bytes: Seq<u8>) -> bool {
    match utf8_text(bytes) {
        None => false,
        Some(t) => {
            let t = trim_start(t);
            starts_with(t, "Prefix("@) || starts_with(t, "Ontology("@)
        },
    }
}

/// Detect OWL Functional Syntax from a file header.
pub fn detect_functional_from_bytes(header: &[u8]) -> (r: bool)
    ensures
        r == is_functional_header(header@),
{
    let text = match utf8_chars(header) {
        Some(t) => t,
        None => return false,
    };
    let t = trim_start_exec(&text);
    at_lit(&t, 0, "Prefix(") || at_lit(&t, 0, "Ontology(")
}

/// `text` with ASCII capitals lowered (`str::to_ascii_lowercase`).
pub open spec fn ascii_lower(text: Seq<char>) -> Seq<char> {
    text.map_values(|c: char| if 'A' <= c <= 'Z' { ((c as u32) + 32) as char } else { c })
}

pub(crate) fn ascii_lower_exec(text: &Vec<char>) -> (r: Vec<char>)
    ensures
        r@ == ascii_lower(text@),
{
    let mut r: Vec<char> = Vec::new();
    let mut i: usize = 0;
    while i < text.len()
        invariant
            i <= text.len(),
            r@ == ascii_lower(text@.subrange(0, i as int)),
        decreases text.len() - i,
    {
        let c = text[i];
        let l = if 'A' <= c && c <= 'Z' {
            char_from_ascii((c as u8) + 32)
        } else {
            c
        };
        r.push(l);
        assert(ascii_lower(text@.subrange(0, i + 1)) =~= ascii_lower(text@.subrange(0, i as int))
            .push(l));
        i += 1;
    }
    assert(text@.subrange(0, text@.len() as int) =~= text@);
    r
}

fn char_from_ascii(b: u8) -> (c: char)
    requires
        b < 128,
    ensures
        c as u32 == b as u32,
{
    b as char
}

/// `text` without one leading byte-order mark.
pub open spec fn strip_bom(text: Seq<char>) -> Seq<char> {
    if text.len() > 0 && text[0] == '\u{feff}' {
        text.subrange(1, text.len() as int)
    } else {
        text
    }
}

/// A Turtle header: after a byte-order mark and leading whitespace, it starts with `@prefix`,
/// `@base` or (any case) `prefix `, or holds a line starting with `@prefix` or (any case)
/// `prefix `.
pub open spec fn is_turtle_header(bytes: Seq<u8>) -> bool {
    match utf8_text(bytes) {
        None => false,
        Some(t) => {
            let t = trim_start(strip_bom(t));
            starts_with(t, "@prefix"@) || starts_with(t, "@base"@) || starts_with(
                ascii_lower(t),
                "prefix "@,
            ) || contains(t, "\n@prefix"@) || contains(ascii_lower(t), "\nprefix "@)
        },
    }
}

/// Sniff the first bytes of a file for Turtle `@prefix` or `PREFIX` declarations.
pub fn detect_turtle_from_bytes(header: &[u8]) -> (r: bool)
    ensures
        r == is_turtle_header(header@),
{
    let text = match utf8_chars(header) {
        Some(t) => t,
        None => return false,
    };
    let unbom = if text.len() > 0 && text[0] == '\u{feff}' {
        crate::text::slice(&text, 1, text.len())
    } else {
        crate::text::copy(&text)
    };
    let t = trim_start_exec(&unbom);
    let lower = ascii_lower_exec(&t);
    at_lit(&t, 0, "@prefix") || at_lit(&t, 0, "@base") || at_lit(&lower, 0, "prefix ")
        || contains_lit(&t, "\n@prefix") || contains_lit(&lower, "\nprefix ")
}

/// The format a header shows: Functional Syntax first, then RDF/XML (`rdf:RDF`), OWL/XML
/// (`<Ontology ` or `:Ontology `), then Turtle.
pub open spec fn header_format(bytes: Seq<u8>) -> Option<Format> {
    if is_functional_header(bytes) {
        Some(Format::Functional)
    } else {
        match utf8_text(bytes) {
            None => None,
            Some(t) => {
                let t = trim_start(t);
                if contains(t, "rdf:RDF"@) || contains(t, "<rdf:RDF"@) {
                    Some(Format::RdfXml)
                } else if contains(t, "<Ontology "@) || contains(t, ":Ontology "@) {
                    Some(Format::OwlXml)
                } else if is_turtle_header(bytes) {
                    Some(Format::Turtle)
                } else {
                    None
                }
            },
        }
    }
}

/// Detect format from file content bytes.
pub fn detect_format_from_bytes(header: &[u8]) -> (r: Option<Format>)
    ensures
        r == header_format(header@),
{
    if detect_functional_from_bytes(header) {
        return Some(Format::Functional);
    }
    let text = match utf8_chars(header) {
        Some(t) => t,
        None => return None,
    };
    let t = trim_start_exec(&text);
    if contains_lit(&t, "rdf:RDF") || contains_lit(&t, "<rdf:RDF") {
        return Some(Format::RdfXml);
    }
    if contains_lit(&t, "<Ontology ") || contains_lit(&t, ":Ontology ") {
        return Some(Format::OwlXml);
    }
    if detect_turtle_from_bytes(header) {
        return Some(Format::Turtle);
    }
    None
}

/// What a file extension says about the format: `owl` and `xml` files are sniffed (`header`
/// holds their first bytes, or nothing when they could not be read), `rdf` is RDF/XML,
/// `ttl`/`turtle` Turtle, `ofn`/`func` Functional Syntax; other extensions are unknown.
pub open spec fn extension_format(ext: Seq<char>, header: Option<Seq<u8>>) -> Option<Format> {
    if ext == "owl"@ || ext == "xml"@ {
        match header {
            Some(h) => header_format(h),
            None => None,
        }
    } else if ext == "rdf"@ {
        Some(Format::RdfXml)
    } else if ext == "ttl"@ || ext == "turtle"@ {
        Some(Format::Turtle)
    } else if ext == "ofn"@ || ext == "func"@ {
        Some(Format::Functional)
    } else {
        None
    }
}

/// The format for a file extension, sniffing the header of `owl` and `xml` files.
pub fn format_for_extension(ext: &str, header: Option<&[u8]>) -> (r: Option<Format>)
    ensures
        r == extension_format(
            ext@,
            match header {
                Some(h) => Some(h@),
                None => None,
            },
        ),
{
    let e = chars_of(ext);
    if eq_lit(&e, "owl") || eq_lit(&e, "xml") {
        match header {
            Some(h) => detect_format_from_bytes(h),
            None => None,
        }
    } else if eq_lit(&e, "rdf") {
        Some(Format::RdfXml)
    } else if eq_lit(&e, "ttl") || eq_lit(&e, "turtle") {
        Some(Format::Turtle)
    } else if eq_lit(&e, "ofn") || eq_lit(&e, "func") {
        Some(Format::Functional)
    } else {
        None
    }
}

fn eq_lit(v: &Vec<char>, s: &str) -> (b: bool)
    ensures
        b == (v@ == s@),
{
    let w = chars_of(s);
    crate::xml::vec_eq(v, &w)
}


/// The format of a document whose extension says nothing: what its header shows, else Turtle,
/// else Functional Syntax when the header reads as either.
pub open spec fn sniffed_format(header: Seq<u8>) -> Option<Format> {
    match header_format(header) {
        Some(f) => Some(f),
        None => if is_turtle_header(header) {
            Some(Format::Turtle)
        } else if is_functional_header(header) {
            Some(Format::Functional)
        } else {
            None
        },
    }
}

/// Detect the format of a document from its first bytes, for a path whose extension says nothing.
pub fn detect_format_from_header(header: &[u8]) -> (r: Option<Format>)
    ensures
        r == sniffed_format(header@),
{
    if let Some(format) = detect_format_from_bytes(header) {
        return Some(format);
    }
    if detect_turtle_from_bytes(header) {
        return Some(Format::Turtle);
    }
    if detect_functional_from_bytes(header) {
        return Some(Format::Functional);
    }
    None
}


proof fn lemma_skip_ws_all(s: Seq<char>, i: int)
    requires
        0 <= i <= s.len(),
    ensures
        forall|j: int| i <= j < skip_ws(s, i) ==> is_whitespace(#[trigger] s[j]),
    decreases s.len() - i,
{
    if i < s.len() && is_whitespace(s[i]) {
        lemma_skip_ws_all(s, i + 1);
    }
}

/// A pattern that starts with a non-whitespace character occurs in a text exactly when it occurs
/// in the text with its leading whitespace trimmed.
pub proof fn lemma_contains_trimmed(s: Seq<char>, p: Seq<char>)
    requires
        p.len() > 0,
        !is_whitespace(p[0]),
    ensures
        contains(trim_start(s), p) == contains(s, p),
{
    let k = skip_ws(s, 0);
    lemma_skip_ws_bounds(s, 0);
    lemma_skip_ws_all(s, 0);
    let t = trim_start(s);
    if contains(t, p) {
        let i = choose|i: int| matches_at(t, i, p);
        assert(s.subrange(i + k, i + k + p.len()) =~= t.subrange(i, i + p.len()));
        assert(matches_at(s, i + k, p));
    }
    if contains(s, p) {
        let i = choose|i: int| matches_at(s, i, p);
        assert(s[i] == p[0]) by {
            assert(s.subrange(i, i + p.len())[0] == s[i]);
        }
        assert(i >= k);
        assert(t.subrange(i - k, i - k + p.len()) =~= s.subrange(i, i + p.len()));
        assert(matches_at(t, i - k, p));
    }
}

/// The format a header shows, with the text searched untrimmed: the leading whitespace that
/// the detection trims never decides it.
pub open spec fn header_format_untrimmed(bytes: Seq<u8>) -> Option<Format> {
    if is_functional_header(bytes) {
        Some(Format::Functional)
    } else {
        match utf8_text(bytes) {
            None => None,
            Some(t) => if contains(t, "rdf:RDF"@) {
                Some(Format::RdfXml)
            } else if contains(t, "<Ontology "@) || contains(t, ":Ontology "@) {
                Some(Format::OwlXml)
            } else if is_turtle_header(bytes) {
                Some(Format::Turtle)
            } else {
                None
            },
        }
    }
}

/// Detecting the format from a header is the same with the text untrimmed, and `<rdf:RDF`
/// adds nothing to `rdf:RDF`.
pub proof fn lemma_header_format_untrimmed(bytes: Seq<u8>)
    ensures
        header_format(bytes) == header_format_untrimmed(bytes),
{
    reveal_strlit("rdf:RDF");
    reveal_strlit("<rdf:RDF");
    reveal_strlit("<Ontology ");
    reveal_strlit(":Ontology ");
    if let Some(t) = utf8_text(bytes) {
        lemma_contains_trimmed(t, "rdf:RDF"@);
        lemma_contains_trimmed(t, "<rdf:RDF"@);
        lemma_contains_trimmed(t, "<Ontology "@);
        lemma_contains_trimmed(t, ":Ontology "@);
        let u = trim_start(t);
        if contains(u, "<rdf:RDF"@) {
            let i = choose|i: int| matches_at(u, i, "<rdf:RDF"@);
            assert(u.subrange(i + 1, i + 8) =~= u.subrange(i, i + 8).subrange(1, 8));
            assert("<rdf:RDF"@.subrange(1, 8) =~= "rdf:RDF"@);
            assert(matches_at(u, i + 1, "rdf:RDF"@));
        }
    }
}

} // verus!
