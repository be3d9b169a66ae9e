//! Budgets and estimates checked before documents are handed to the parser: the
//! preprocessing allocation budget, the harvested-assertion count, the axiom estimate of a
//! document's bytes, the file size, and the lexical forms of integer literals.
use vstd::prelude::*;

use crate::error::Error;
use crate::format::Format;
use crate::limits::ParseLimits;
use crate::text::{chars_of, decimal, push_decimal, push_decimal_u128, push_str, string_of, utf8_len, utf8_len_exec};

verus! {

/// `a + b`, or `usize::MAX` when the sum does not fit.
pub open spec fn sat_add(a: int, b: int) -> int {
    if a + b > usize::MAX {
        usize::MAX as int
    } else {
        a + b
    }
}

/// The cumulative allocation budget of the preprocessing stages.
pub struct PreprocessBudget {
    /// The most bytes the stages may produce in all.
    pub limit: usize,
    /// The bytes the stages have produced so far.
    pub used: usize,
}

/// `parse error: RDF/XML preprocessing allocation {used} bytes exceeds limit of {limit} bytes`
/// (the message part).
pub open spec fn budget_message(used: nat, limit: nat) -> Seq<char> {
    "RDF/XML preprocessing allocation "@ + decimal(used) + " bytes exceeds limit of "@ + decimal(
        limit,
    ) + " bytes"@
}

impl PreprocessBudget {
    /// A budget of `limit` bytes with nothing used.
    pub fn new(limit: usize) -> (r: Self)
        ensures
            r.limit == limit,
            r.used == 0,
    {
        PreprocessBudget { limit, used: 0 }
    }

    /// Count the UTF-8 size of a stage's output against the budget (saturating), and fail once
    /// the total exceeds the limit.
    pub fn track(&mut self, stage: &str) -> (r: Result<(), Error>)
        ensures
            final(self).limit == old(self).limit,
            final(self).used as int == sat_add(old(self).used as int, utf8_len(stage@) as int),
            r is Ok <==> final(self).used <= final(self).limit,
            r matches Err(e) ==> (e matches Error::Parse(m) && m@ == budget_message(
                final(self).used as nat,
                final(self).limit as nat,
            )),
    {
        let cs = chars_of(stage);
        let len = cs.len();
        let n = utf8_len_exec(&cs);
        proof {
            crate::text::lemma_utf8_len_bound(cs@);
            assert(n <= 4 * len);
        }
        let total: u128 = self.used as u128 + n;
        self.used = if total > usize::MAX as u128 {
            usize::MAX
        } else {
            total as usize
        };
        if self.used > self.limit {
            let mut m = chars_of("RDF/XML preprocessing allocation ");
            push_decimal(&mut m, self.used);
            push_str(&mut m, " bytes exceeds limit of ");
            push_decimal(&mut m, self.limit);
            push_str(&mut m, " bytes");
            Err(Error::Parse(string_of(&m)))
        } else {
            Ok(())
        }
    }
}

} // verus!

verus! {

/// `harvested assertion count {count} exceeds limit of {limit}`.
pub open spec fn harvest_message(count: nat, limit: nat) -> Seq<char> {
    "harvested assertion count "@ + decimal(count) + " exceeds limit of "@ + decimal(limit)
}

/// Count one more harvested assertion, and fail once the count exceeds the limit.
pub fn bump_harvested_assertions(count: &mut usize, limits: ParseLimits) -> (r: Result<(), Error>)
    requires
        *old(count) < usize::MAX,
    ensures
        *final(count) == *old(count) + 1,
        r is Ok <==> *final(count) <= limits.max_harvested_assertions,
        r matches Err(e) ==> (e matches Error::Parse(m) && m@ == harvest_message(
            *final(count) as nat,
            limits.max_harvested_assertions as nat,
        )),
{
    *count += 1;
    if *count > limits.max_harvested_assertions {
        let mut m = chars_of("harvested assertion count ");
        push_decimal(&mut m, *count);
        push_str(&mut m, " exceeds limit of ");
        push_decimal(&mut m, limits.max_harvested_assertions);
        Err(Error::Parse(string_of(&m)))
    } else {
        Ok(())
    }
}

/// `marker` (an ASCII text) occurs in `bytes` at `i`.
pub open spec fn marker_at(bytes: Seq<u8>, i: int, marker: Seq<char>) -> bool {
    0 <= i && i + marker.len() <= bytes.len() && forall|k: int|
        0 <= k < marker.len() ==> #[trigger] bytes[i + k] as char == marker[k]
}

/// The occurrences of `marker` in `bytes` from `i` on, counted left to right without
/// overlaps.
pub open spec fn marker_count(bytes: Seq<u8>, marker: Seq<char>, i: int) -> nat
    decreases bytes.len() - i,
{
    if marker.len() == 0 || i < 0 || i + marker.len() > bytes.len() {
        0
    } else if marker_at(bytes, i, marker) {
        1 + marker_count(bytes, marker, i + marker.len())
    } else {
        marker_count(bytes, marker, i + 1)
    }
}

/// The occurrences of `marker` in `bytes`, counted as `marker_count` says.
pub fn count_marker(bytes: &[u8], marker: &str) -> (r: usize)
    ensures
        r == marker_count(bytes@, marker@, 0),
{
    let m = chars_of(marker);
    let n = bytes.len();
    let ml = m.len();
    if ml == 0 {
        return 0;
    }
    if ml > n {
        return 0;
    }
    let mut i: usize = 0;
    let mut c: usize = 0;
    while i <= n - ml
        invariant
            ml <= n,
            m@ == marker@,
            ml == m.len(),
            ml > 0,
            n == bytes@.len(),
            c <= i,
            c + marker_count(bytes@, marker@, i as int) == marker_count(bytes@, marker@, 0),
        decreases n - i,
    {
        let mut k: usize = 0;
        while k < ml && bytes[i + k] as char == m[k]
            invariant
                m@ == marker@,
                ml == m.len(),
                n == bytes@.len(),
                i + ml <= n,
                k <= ml,
                forall|j: int| 0 <= j < k ==> #[trigger] bytes@[i + j] as char == marker@[j],
            decreases ml - k,
        {
            k += 1;
        }
        if k == ml {
            assert(marker_at(bytes@, i as int, marker@));
            c += 1;
            i += ml;
        } else {
            assert(!marker_at(bytes@, i as int, marker@)) by {
                assert(bytes@[i + k] as char != marker@[k as int]);
            }
            i += 1;
        }
    }
    c
}

/// The number of axiom markers (`SubClassOf(`, `Declaration(`, ...) in a functional-syntax
/// document.
pub open spec fn ofn_marker_total(b: Seq<u8>) -> nat {
    marker_count(b, "SubClassOf("@, 0) + marker_count(b, "EquivalentClasses("@, 0)
        + marker_count(b, "DisjointClasses("@, 0) + marker_count(b, "ClassAssertion("@, 0)
        + marker_count(b, "ObjectPropertyAssertion("@, 0) + marker_count(
        b,
        "DataPropertyAssertion("@,
        0,
    ) + marker_count(b, "Declaration("@, 0) + marker_count(b, "SubObjectPropertyOf("@, 0)
        + marker_count(b, "EquivalentObjectProperties("@, 0) + marker_count(
        b,
        "DisjointObjectProperties("@,
        0,
    ) + marker_count(b, "SameIndividual("@, 0) + marker_count(b, "DifferentIndividuals("@, 0)
        + marker_count(b, "ObjectPropertyDomain("@, 0) + marker_count(
        b,
        "ObjectPropertyRange("@,
        0,
    ) + marker_count(b, "NegativeObjectPropertyAssertion("@, 0) + marker_count(
        b,
        "NegativeDataPropertyAssertion("@,
        0,
    )
}

/// The number of OWL markers (`owl:Class`, `rdf:type`, `rdfs:subClassOf`, ...) in an XML
/// document.
pub open spec fn xml_marker_total(b: Seq<u8>) -> nat {
    marker_count(b, "owl:Class"@, 0) + marker_count(b, "owl:ObjectProperty"@, 0) + marker_count(
        b,
        "owl:DatatypeProperty"@,
        0,
    ) + marker_count(b, "owl:NamedIndividual"@, 0) + marker_count(b, "owl:Restriction"@, 0)
        + marker_count(b, "owl:equivalentClass"@, 0) + marker_count(b, "owl:intersectionOf"@, 0)
        + marker_count(b, "owl:unionOf"@, 0) + marker_count(b, "owl:complementOf"@, 0)
        + marker_count(b, "owl:disjointWith"@, 0) + marker_count(b, "owl:someValuesFrom"@, 0)
        + marker_count(b, "owl:allValuesFrom"@, 0) + marker_count(b, "owl:hasValue"@, 0)
        + marker_count(b, "owl:cardinality"@, 0) + marker_count(b, "owl:minCardinality"@, 0)
        + marker_count(b, "owl:maxCardinality"@, 0) + marker_count(b, "rdf:type"@, 0)
        + marker_count(b, "rdfs:subClassOf"@, 0)
}

/// The statement estimate of a Turtle document: its ` ;` and ` .` markers and a quarter of
/// its lines breaks.
pub open spec fn turtle_marker_total(b: Seq<u8>) -> nat {
    marker_count(b, " ;"@, 0) + marker_count(b, " ."@, 0) + marker_count(b, "\n"@, 0) / 4
}

/// The number of axiom markers in a functional-syntax document.
pub fn count_ofn_axiom_markers(bytes: &[u8]) -> (r: u128)
    ensures
        r == ofn_marker_total(bytes@),
{
    count_marker(bytes, "SubClassOf(") as u128 + count_marker(bytes, "EquivalentClasses(") as u128
        + count_marker(bytes, "DisjointClasses(") as u128 + count_marker(bytes, "ClassAssertion(")
        as u128 + count_marker(bytes, "ObjectPropertyAssertion(") as u128 + count_marker(
        bytes,
        "DataPropertyAssertion(",
    ) as u128 + count_marker(bytes, "Declaration(") as u128 + count_marker(
        bytes,
        "SubObjectPropertyOf(",
    ) as u128 + count_marker(bytes, "EquivalentObjectProperties(") as u128 + count_marker(
        bytes,
        "DisjointObjectProperties(",
    ) as u128 + count_marker(bytes, "SameIndividual(") as u128 + count_marker(
        bytes,
        "DifferentIndividuals(",
    ) as u128 + count_marker(bytes, "ObjectPropertyDomain(") as u128 + count_marker(
        bytes,
        "ObjectPropertyRange(",
    ) as u128 + count_marker(bytes, "NegativeObjectPropertyAssertion(") as u128 + count_marker(
        bytes,
        "NegativeDataPropertyAssertion(",
    ) as u128
}

/// The number of OWL markers in an XML document.
pub fn count_xml_axiom_markers(bytes: &[u8]) -> (r: u128)
    ensures
        r == xml_marker_total(bytes@),
{
    count_marker(bytes, "owl:Class") as u128 + count_marker(bytes, "owl:ObjectProperty") as u128
        + count_marker(bytes, "owl:DatatypeProperty") as u128 + count_marker(
        bytes,
        "owl:NamedIndividual",
    ) as u128 + count_marker(bytes, "owl:Restriction") as u128 + count_marker(
        bytes,
        "owl:equivalentClass",
    ) as u128 + count_marker(bytes, "owl:intersectionOf") as u128 + count_marker(
        bytes,
        "owl:unionOf",
    ) as u128 + count_marker(bytes, "owl:complementOf") as u128 + count_marker(
        bytes,
        "owl:disjointWith",
    ) as u128 + count_marker(bytes, "owl:someValuesFrom") as u128 + count_marker(
        bytes,
        "owl:allValuesFrom",
    ) as u128 + count_marker(bytes, "owl:hasValue") as u128 + count_marker(
        bytes,
        "owl:cardinality",
    ) as u128 + count_marker(bytes, "owl:minCardinality") as u128 + count_marker(
        bytes,
        "owl:maxCardinality",
    ) as u128 + count_marker(bytes, "rdf:type") as u128 + count_marker(bytes, "rdfs:subClassOf")
        as u128
}

/// The statement estimate of a Turtle document.
pub fn count_turtle_statement_markers(bytes: &[u8]) -> (r: u128)
    ensures
        r == turtle_marker_total(bytes@),
{
    count_marker(bytes, " ;") as u128 + count_marker(bytes, " .") as u128 + (count_marker(
        bytes,
        "\n",
    ) / 4) as u128
}

/// The component estimate of a document in `format`.
pub open spec fn axiom_estimate(bytes: Seq<u8>, format: Format) -> nat {
    match format {
        Format::Functional => ofn_marker_total(bytes),
        Format::OwlXml | Format::RdfXml => xml_marker_total(bytes),
        Format::Turtle => turtle_marker_total(bytes),
    }
}

/// `pre-scan estimate of {estimate} components exceeds axiom limit of {limit}`.
pub open spec fn estimate_message(estimate: nat, limit: nat) -> Seq<char> {
    "pre-scan estimate of "@ + decimal(estimate) + " components exceeds axiom limit of "@
        + decimal(limit)
}

/// Fail where a document's component estimate exceeds the axiom limit.
pub fn prescan_axiom_estimate(bytes: &[u8], format: Format, limits: ParseLimits) -> (r: Result<
    (),
    Error,
>)
    ensures
        r is Ok <==> axiom_estimate(bytes@, format) <= limits.max_axioms,
        r matches Err(e) ==> (e matches Error::Parse(m) && m@ == estimate_message(
            axiom_estimate(bytes@, format),
            limits.max_axioms as nat,
        )),
{
    let estimate = match format {
        Format::Functional => count_ofn_axiom_markers(bytes),
        Format::OwlXml | Format::RdfXml => count_xml_axiom_markers(bytes),
        Format::Turtle => count_turtle_statement_markers(bytes),
    };
    if estimate > limits.max_axioms as u128 {
        let mut m = chars_of("pre-scan estimate of ");
        push_decimal_u128(&mut m, estimate);
        push_str(&mut m, " components exceeds axiom limit of ");
        push_decimal(&mut m, limits.max_axioms);
        return Err(Error::Parse(string_of(&m)));
    }
    Ok(())
}

/// `file size {len} exceeds limit of {limit} bytes`.
pub open spec fn file_size_message(len: nat, limit: nat) -> Seq<char> {
    "file size "@ + decimal(len) + " exceeds limit of "@ + decimal(limit) + " bytes"@
}

/// Fail where a file's size, taken as a `usize`, exceeds the file-size limit.
pub fn check_file_size(len: u64, limits: ParseLimits) -> (r: Result<(), Error>)
    ensures
        r is Ok <==> (len as usize) <= limits.max_file_bytes,
        r matches Err(e) ==> (e matches Error::Parse(m) && m@ == file_size_message(
            len as nat,
            limits.max_file_bytes as nat,
        )),
{
    if len as usize > limits.max_file_bytes {
        let mut m = chars_of("file size ");
        crate::text::push_decimal_u128(&mut m, len as u128);
        push_str(&mut m, " exceeds limit of ");
        push_decimal(&mut m, limits.max_file_bytes);
        push_str(&mut m, " bytes");
        return Err(Error::Parse(string_of(&m)));
    }
    Ok(())
}

} // verus!

verus! {

/// Once the preprocessing budget is exceeded it stays exceeded: the used count never goes
/// down, so every later stage fails too.
pub proof fn lemma_exceeded_budget_stays_exceeded(used: usize, limit: usize, stage_bytes: nat)
    requires
        used > limit,
    ensures
        sat_add(used as int, stage_bytes as int) >= used,
        sat_add(used as int, stage_bytes as int) > limit,
{
}

/// The harvested-assertion count only grows, so once over the limit every later count is.
pub proof fn lemma_harvest_limit_stays_exceeded(count: usize, limit: usize)
    requires
        count > limit,
        count < usize::MAX,
    ensures
        count + 1 > limit,
{
}

} // verus!
