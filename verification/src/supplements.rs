//! The OWL functional-syntax documents that supplement an RDF/XML load with the axioms its
//! mapping misses, and the plan of supplement steps an RDF/XML document gives rise to.
use vstd::prelude::*;

use crate::object_assertions::TripleView;
use crate::ofn_terms::{
    escape_ofn, escape_ofn_string, join_lines, qualified_ce, qualified_typed_literal,
    qualify_ce_ofn_for_supplement, qualify_typed_literal_for_supplement, qualified_datatype_ref,
    qualify_datatype_ref_for_supplement,
};
use crate::booleans::{
    boolean_equivalences, collect_boolean_class_equivalences, collect_disjoint_union_axioms,
    disjoint_unions,
};
use crate::class_assertions::{collect_object_class_assertions, complex_class_assertions};
use crate::iri_set::sorted_members;
use crate::literals::{collect_direct_data_literal_assertions, direct_data_literals, DirectDataLiteralAssertion};
use crate::object_assertions::{collect_object_property_assertions, object_property_assertions};
use crate::pairs::{
    annotation_pairs, collect_complement_subclasses, collect_owl_same_as_pairs,
    collect_property_disjoint_pairs, collect_rdfs_object_property_domains, complement_pairs,
    same_as_pairs,
};
use crate::properties::{
    collect_datatype_property_ranges, collect_functional_object_properties,
    collect_rdfs_object_property_ranges, datatype_property_ranges, functional_candidates,
    object_property_ranges,
};
use crate::self_disjoint::{collect_self_disjoint_restriction_assertions, self_disjoint_assertions};
use crate::subclasses::{
    collect_restriction_subclasses, declared_datatype_properties, declared_datatype_property_iris,
    restriction_subclasses,
};
use crate::object_assertions::triple_views;
use crate::reified::{
    collect_reified_data_npas, collect_reified_npas, reified_data_npas, reified_npas, NpaView,
    ReifiedDataNpa, ReifiedNpa, ReifiedView,
};
use crate::scan::{pair_views, str_views, PairView};
use crate::xml::vec_eq;
use crate::text::{chars_of, contains, contains_lit, find_from, find_lit, lemma_find_from_bounds, index_of, index_of_exec, push_all, push_str, replace_all, replace_lit, slice, string_of};

verus! {

/// The text of the individual of a self-disjoint restriction asserted into the restriction.
pub open spec fn self_disjoint_text(individual: Seq<char>, restriction: Seq<char>, ce: Seq<char>) -> Seq<char> {
    "Prefix(owl:=<http://www.w3.org/2002/07/owl#>)\nPrefix(xsd:=<http://www.w3.org/2001/XMLSchema#>)\nPrefix(rdf:=<http://www.w3.org/1999/02/22-rdf-syntax-ns#>)\nOntology(<"@ + individual + ">\nDeclaration(Class(<"@ + restriction + ">))\nDeclaration(NamedIndividual(<"@ + individual + ">))\nDeclaration(ObjectProperty(<http://www.w3.org/2002/03owlt/disjointWith/inconsistent010#p>))\nEquivalentClasses(<"@ + restriction + "> "@ + ce + ")\nDisjointClasses(<"@ + restriction + "> <"@ + restriction + ">)\nClassAssertion(<"@ + restriction + "> <"@ + individual + ">)\n)"@
}

pub(crate) fn self_disjoint(individual: &Vec<char>, restriction: &Vec<char>, ce: &Vec<char>) -> (r: Vec<char>)
    ensures
        r@ == self_disjoint_text(individual@, restriction@, ce@),
{
    let mut o: Vec<char> = Vec::new();
    push_str(&mut o, "Prefix(owl:=<http://www.w3.org/2002/07/owl#>)\nPrefix(xsd:=<http://www.w3.org/2001/XMLSchema#>)\nPrefix(rdf:=<http://www.w3.org/1999/02/22-rdf-syntax-ns#>)\nOntology(<");
    push_all(&mut o, individual);
    push_str(&mut o, ">\nDeclaration(Class(<");
    push_all(&mut o, restriction);
    push_str(&mut o, ">))\nDeclaration(NamedIndividual(<");
    push_all(&mut o, individual);
    push_str(&mut o, ">))\nDeclaration(ObjectProperty(<http://www.w3.org/2002/03owlt/disjointWith/inconsistent010#p>))\nEquivalentClasses(<");
    push_all(&mut o, restriction);
    push_str(&mut o, "> ");
    push_all(&mut o, ce);
    push_str(&mut o, ")\nDisjointClasses(<");
    push_all(&mut o, restriction);
    push_str(&mut o, "> <");
    push_all(&mut o, restriction);
    push_str(&mut o, ">)\nClassAssertion(<");
    push_all(&mut o, restriction);
    push_str(&mut o, "> <");
    push_all(&mut o, individual);
    push_str(&mut o, ">)\n)");
    o
}

/// The text of an individual asserted into a complex class expression.
pub open spec fn class_assertion_text(individual: Seq<char>, ce: Seq<char>) -> Seq<char> {
    "Prefix(owl:=<http://www.w3.org/2002/07/owl#>)\nPrefix(xsd:=<http://www.w3.org/2001/XMLSchema#>)\nPrefix(rdf:=<http://www.w3.org/1999/02/22-rdf-syntax-ns#>)\nOntology(<"@ + individual + ">\nDeclaration(NamedIndividual(<"@ + individual + ">))\nClassAssertion("@ + ce + " <"@ + individual + ">)\n)"@
}

pub(crate) fn class_assertion(individual: &Vec<char>, ce: &Vec<char>) -> (r: Vec<char>)
    ensures
        r@ == class_assertion_text(individual@, ce@),
{
    let mut o: Vec<char> = Vec::new();
    push_str(&mut o, "Prefix(owl:=<http://www.w3.org/2002/07/owl#>)\nPrefix(xsd:=<http://www.w3.org/2001/XMLSchema#>)\nPrefix(rdf:=<http://www.w3.org/1999/02/22-rdf-syntax-ns#>)\nOntology(<");
    push_all(&mut o, individual);
    push_str(&mut o, ">\nDeclaration(NamedIndividual(<");
    push_all(&mut o, individual);
    push_str(&mut o, ">))\nClassAssertion(");
    push_all(&mut o, ce);
    push_str(&mut o, " <");
    push_all(&mut o, individual);
    push_str(&mut o, ">)\n)");
    o
}

/// The text of a named class below a class expression.
pub open spec fn subclass_text(class: Seq<char>, ce: Seq<char>) -> Seq<char> {
    "Prefix(owl:=<http://www.w3.org/2002/07/owl#>)\nPrefix(xsd:=<http://www.w3.org/2001/XMLSchema#>)\nPrefix(rdf:=<http://www.w3.org/1999/02/22-rdf-syntax-ns#>)\nOntology(<"@ + class + ">\nDeclaration(Class(<"@ + class + ">))\nSubClassOf(<"@ + class + "> "@ + ce + ")\n)"@
}

pub(crate) fn subclass(class: &Vec<char>, ce: &Vec<char>) -> (r: Vec<char>)
    ensures
        r@ == subclass_text(class@, ce@),
{
    let mut o: Vec<char> = Vec::new();
    push_str(&mut o, "Prefix(owl:=<http://www.w3.org/2002/07/owl#>)\nPrefix(xsd:=<http://www.w3.org/2001/XMLSchema#>)\nPrefix(rdf:=<http://www.w3.org/1999/02/22-rdf-syntax-ns#>)\nOntology(<");
    push_all(&mut o, class);
    push_str(&mut o, ">\nDeclaration(Class(<");
    push_all(&mut o, class);
    push_str(&mut o, ">))\nSubClassOf(<");
    push_all(&mut o, class);
    push_str(&mut o, "> ");
    push_all(&mut o, ce);
    push_str(&mut o, ")\n)");
    o
}

/// The text of the axioms of an anonymous restriction subclass.
pub open spec fn anonymous_restriction_text(body: Seq<char>) -> Seq<char> {
    "Prefix(owl:=<http://www.w3.org/2002/07/owl#>)\nPrefix(xsd:=<http://www.w3.org/2001/XMLSchema#>)\nPrefix(rdf:=<http://www.w3.org/1999/02/22-rdf-syntax-ns#>)\nOntology(<http://example.org/anon-restriction-supplement>\n"@ + body + "\n)"@
}

pub(crate) fn anonymous_restriction(body: &Vec<char>) -> (r: Vec<char>)
    ensures
        r@ == anonymous_restriction_text(body@),
{
    let mut o: Vec<char> = Vec::new();
    push_str(&mut o, "Prefix(owl:=<http://www.w3.org/2002/07/owl#>)\nPrefix(xsd:=<http://www.w3.org/2001/XMLSchema#>)\nPrefix(rdf:=<http://www.w3.org/1999/02/22-rdf-syntax-ns#>)\nOntology(<http://example.org/anon-restriction-supplement>\n");
    push_all(&mut o, body);
    push_str(&mut o, "\n)");
    o
}

/// The text of a named class equivalent to a boolean class expression.
pub open spec fn boolean_equivalence_text(prefixes: Seq<char>, class: Seq<char>, ce: Seq<char>) -> Seq<char> {
    "Prefix(owl:=<http://www.w3.org/2002/07/owl#>)\nPrefix(xsd:=<http://www.w3.org/2001/XMLSchema#>)\nPrefix(rdf:=<http://www.w3.org/1999/02/22-rdf-syntax-ns#>)\n"@ + prefixes + "\nOntology(<"@ + class + ">\nDeclaration(Class(<"@ + class + ">))\nEquivalentClasses(<"@ + class + "> "@ + ce + ")\n)"@
}

pub(crate) fn boolean_equivalence(prefixes: &Vec<char>, class: &Vec<char>, ce: &Vec<char>) -> (r: Vec<char>)
    ensures
        r@ == boolean_equivalence_text(prefixes@, class@, ce@),
{
    let mut o: Vec<char> = Vec::new();
    push_str(&mut o, "Prefix(owl:=<http://www.w3.org/2002/07/owl#>)\nPrefix(xsd:=<http://www.w3.org/2001/XMLSchema#>)\nPrefix(rdf:=<http://www.w3.org/1999/02/22-rdf-syntax-ns#>)\n");
    push_all(&mut o, prefixes);
    push_str(&mut o, "\nOntology(<");
    push_all(&mut o, class);
    push_str(&mut o, ">\nDeclaration(Class(<");
    push_all(&mut o, class);
    push_str(&mut o, ">))\nEquivalentClasses(<");
    push_all(&mut o, class);
    push_str(&mut o, "> ");
    push_all(&mut o, ce);
    push_str(&mut o, ")\n)");
    o
}

/// The text of two equivalent boolean class expressions.
pub open spec fn boolean_binary_text(left_prefixes: Seq<char>, right_prefixes: Seq<char>, left: Seq<char>, right: Seq<char>) -> Seq<char> {
    "Prefix(owl:=<http://www.w3.org/2002/07/owl#>)\nPrefix(xsd:=<http://www.w3.org/2001/XMLSchema#>)\nPrefix(rdf:=<http://www.w3.org/1999/02/22-rdf-syntax-ns#>)\n"@ + left_prefixes + "\n"@ + right_prefixes + "\nOntology(<http://example.org/boolean-binary-equiv-supplement>\nEquivalentClasses("@ + left + " "@ + right + ")\n)"@
}

pub(crate) fn boolean_binary(left_prefixes: &Vec<char>, right_prefixes: &Vec<char>, left: &Vec<char>, right: &Vec<char>) -> (r: Vec<char>)
    ensures
        r@ == boolean_binary_text(left_prefixes@, right_prefixes@, left@, right@),
{
    let mut o: Vec<char> = Vec::new();
    push_str(&mut o, "Prefix(owl:=<http://www.w3.org/2002/07/owl#>)\nPrefix(xsd:=<http://www.w3.org/2001/XMLSchema#>)\nPrefix(rdf:=<http://www.w3.org/1999/02/22-rdf-syntax-ns#>)\n");
    push_all(&mut o, left_prefixes);
    push_str(&mut o, "\n");
    push_all(&mut o, right_prefixes);
    push_str(&mut o, "\nOntology(<http://example.org/boolean-binary-equiv-supplement>\nEquivalentClasses(");
    push_all(&mut o, left);
    push_str(&mut o, " ");
    push_all(&mut o, right);
    push_str(&mut o, ")\n)");
    o
}

/// The text of the declarations and the assertion of one object property assertion.
pub open spec fn object_assertion_body_text(subject: Seq<char>, property: Seq<char>, object: Seq<char>) -> Seq<char> {
    "Declaration(NamedIndividual(<"@ + subject + ">))\nDeclaration(NamedIndividual(<"@ + object + ">))\nDeclaration(ObjectProperty(<"@ + property + ">))\nObjectPropertyAssertion(<"@ + property + "> <"@ + subject + "> <"@ + object + ">)"@
}

pub(crate) fn object_assertion_body(subject: &Vec<char>, property: &Vec<char>, object: &Vec<char>) -> (r: Vec<char>)
    ensures
        r@ == object_assertion_body_text(subject@, property@, object@),
{
    let mut o: Vec<char> = Vec::new();
    push_str(&mut o, "Declaration(NamedIndividual(<");
    push_all(&mut o, subject);
    push_str(&mut o, ">))\nDeclaration(NamedIndividual(<");
    push_all(&mut o, object);
    push_str(&mut o, ">))\nDeclaration(ObjectProperty(<");
    push_all(&mut o, property);
    push_str(&mut o, ">))\nObjectPropertyAssertion(<");
    push_all(&mut o, property);
    push_str(&mut o, "> <");
    push_all(&mut o, subject);
    push_str(&mut o, "> <");
    push_all(&mut o, object);
    push_str(&mut o, ">)");
    o
}

/// The text of the object property assertions, their bodies joined by newlines.
pub open spec fn object_assertions_text(bodies: Seq<char>) -> Seq<char> {
    "Prefix(owl:=<http://www.w3.org/2002/07/owl#>)\nOntology(<http://example.org/opa-supplement>\n"@ + bodies + "\n)"@
}

pub(crate) fn object_assertions(bodies: &Vec<char>) -> (r: Vec<char>)
    ensures
        r@ == object_assertions_text(bodies@),
{
    let mut o: Vec<char> = Vec::new();
    push_str(&mut o, "Prefix(owl:=<http://www.w3.org/2002/07/owl#>)\nOntology(<http://example.org/opa-supplement>\n");
    push_all(&mut o, bodies);
    push_str(&mut o, "\n)");
    o
}

/// The text of the range of a datatype property.
pub open spec fn datatype_range_text(property: Seq<char>, range: Seq<char>) -> Seq<char> {
    "Prefix(owl:=<http://www.w3.org/2002/07/owl#>)\nPrefix(xsd:=<http://www.w3.org/2001/XMLSchema#>)\nPrefix(rdfs:=<http://www.w3.org/2000/01/rdf-schema#>)\nOntology(<http://example.org/datatype-range-supplement>\nDeclaration(DataProperty(<"@ + property + ">))\nDataPropertyRange(<"@ + property + "> "@ + range + ")\n)"@
}

pub(crate) fn datatype_range(property: &Vec<char>, range: &Vec<char>) -> (r: Vec<char>)
    ensures
        r@ == datatype_range_text(property@, range@),
{
    let mut o: Vec<char> = Vec::new();
    push_str(&mut o, "Prefix(owl:=<http://www.w3.org/2002/07/owl#>)\nPrefix(xsd:=<http://www.w3.org/2001/XMLSchema#>)\nPrefix(rdfs:=<http://www.w3.org/2000/01/rdf-schema#>)\nOntology(<http://example.org/datatype-range-supplement>\nDeclaration(DataProperty(<");
    push_all(&mut o, property);
    push_str(&mut o, ">))\nDataPropertyRange(<");
    push_all(&mut o, property);
    push_str(&mut o, "> ");
    push_all(&mut o, range);
    push_str(&mut o, ")\n)");
    o
}

/// The text of a datatype alias defined as an XML Schema datatype.
pub open spec fn datatype_same_as_document_text(alias_prefixes: Seq<char>, alias: Seq<char>, xsd: Seq<char>) -> Seq<char> {
    "Prefix(owl:=<http://www.w3.org/2002/07/owl#>)\nPrefix(xsd:=<http://www.w3.org/2001/XMLSchema#>)\n"@ + alias_prefixes + "\nOntology(<http://example.org/datatype-sameas-supplement>\nDeclaration(Datatype("@ + alias + "))\nDatatypeDefinition("@ + alias + " "@ + xsd + ")\n)"@
}

pub(crate) fn datatype_same_as_document(alias_prefixes: &Vec<char>, alias: &Vec<char>, xsd: &Vec<char>) -> (r: Vec<char>)
    ensures
        r@ == datatype_same_as_document_text(alias_prefixes@, alias@, xsd@),
{
    let mut o: Vec<char> = Vec::new();
    push_str(&mut o, "Prefix(owl:=<http://www.w3.org/2002/07/owl#>)\nPrefix(xsd:=<http://www.w3.org/2001/XMLSchema#>)\n");
    push_all(&mut o, alias_prefixes);
    push_str(&mut o, "\nOntology(<http://example.org/datatype-sameas-supplement>\nDeclaration(Datatype(");
    push_all(&mut o, alias);
    push_str(&mut o, "))\nDatatypeDefinition(");
    push_all(&mut o, alias);
    push_str(&mut o, " ");
    push_all(&mut o, xsd);
    push_str(&mut o, ")\n)");
    o
}

/// The text of two equivalent object properties.
pub open spec fn property_same_as_text(left: Seq<char>, right: Seq<char>) -> Seq<char> {
    "Prefix(owl:=<http://www.w3.org/2002/07/owl#>)\nOntology(<http://example.org/property-sameas-supplement>\nDeclaration(ObjectProperty(<"@ + left + ">))\nDeclaration(ObjectProperty(<"@ + right + ">))\nEquivalentObjectProperties(<"@ + left + "> <"@ + right + ">)\n)"@
}

pub(crate) fn property_same_as(left: &Vec<char>, right: &Vec<char>) -> (r: Vec<char>)
    ensures
        r@ == property_same_as_text(left@, right@),
{
    let mut o: Vec<char> = Vec::new();
    push_str(&mut o, "Prefix(owl:=<http://www.w3.org/2002/07/owl#>)\nOntology(<http://example.org/property-sameas-supplement>\nDeclaration(ObjectProperty(<");
    push_all(&mut o, left);
    push_str(&mut o, ">))\nDeclaration(ObjectProperty(<");
    push_all(&mut o, right);
    push_str(&mut o, ">))\nEquivalentObjectProperties(<");
    push_all(&mut o, left);
    push_str(&mut o, "> <");
    push_all(&mut o, right);
    push_str(&mut o, ">)\n)");
    o
}

/// The text of the domain of an object property.
pub open spec fn property_domain_text(property: Seq<char>, domain: Seq<char>) -> Seq<char> {
    "Prefix(owl:=<http://www.w3.org/2002/07/owl#>)\nOntology(<http://example.org/rdfs-domain-supplement>\nDeclaration(ObjectProperty(<"@ + property + ">))\nDeclaration(Class(<"@ + domain + ">))\nObjectPropertyDomain(<"@ + property + "> <"@ + domain + ">)\n)"@
}

pub(crate) fn property_domain(property: &Vec<char>, domain: &Vec<char>) -> (r: Vec<char>)
    ensures
        r@ == property_domain_text(property@, domain@),
{
    let mut o: Vec<char> = Vec::new();
    push_str(&mut o, "Prefix(owl:=<http://www.w3.org/2002/07/owl#>)\nOntology(<http://example.org/rdfs-domain-supplement>\nDeclaration(ObjectProperty(<");
    push_all(&mut o, property);
    push_str(&mut o, ">))\nDeclaration(Class(<");
    push_all(&mut o, domain);
    push_str(&mut o, ">))\nObjectPropertyDomain(<");
    push_all(&mut o, property);
    push_str(&mut o, "> <");
    push_all(&mut o, domain);
    push_str(&mut o, ">)\n)");
    o
}

/// The text of the range of an object property.
pub open spec fn property_range_text(property: Seq<char>, range: Seq<char>) -> Seq<char> {
    "Prefix(owl:=<http://www.w3.org/2002/07/owl#>)\nOntology(<http://example.org/rdfs-range-supplement>\nDeclaration(ObjectProperty(<"@ + property + ">))\nDeclaration(Class(<"@ + range + ">))\nObjectPropertyRange(<"@ + property + "> <"@ + range + ">)\n)"@
}

pub(crate) fn property_range(property: &Vec<char>, range: &Vec<char>) -> (r: Vec<char>)
    ensures
        r@ == property_range_text(property@, range@),
{
    let mut o: Vec<char> = Vec::new();
    push_str(&mut o, "Prefix(owl:=<http://www.w3.org/2002/07/owl#>)\nOntology(<http://example.org/rdfs-range-supplement>\nDeclaration(ObjectProperty(<");
    push_all(&mut o, property);
    push_str(&mut o, ">))\nDeclaration(Class(<");
    push_all(&mut o, range);
    push_str(&mut o, ">))\nObjectPropertyRange(<");
    push_all(&mut o, property);
    push_str(&mut o, "> <");
    push_all(&mut o, range);
    push_str(&mut o, ">)\n)");
    o
}

/// The text of an object property below another.
pub open spec fn sub_property_text(sub: Seq<char>, sup: Seq<char>) -> Seq<char> {
    "Prefix(owl:=<http://www.w3.org/2002/07/owl#>)\nOntology(<http://example.org/rdfs-subproperty-supplement>\nDeclaration(ObjectProperty(<"@ + sub + ">))\nDeclaration(ObjectProperty(<"@ + sup + ">))\nSubObjectPropertyOf(<"@ + sub + "> <"@ + sup + ">)\n)"@
}

pub(crate) fn sub_property(sub: &Vec<char>, sup: &Vec<char>) -> (r: Vec<char>)
    ensures
        r@ == sub_property_text(sub@, sup@),
{
    let mut o: Vec<char> = Vec::new();
    push_str(&mut o, "Prefix(owl:=<http://www.w3.org/2002/07/owl#>)\nOntology(<http://example.org/rdfs-subproperty-supplement>\nDeclaration(ObjectProperty(<");
    push_all(&mut o, sub);
    push_str(&mut o, ">))\nDeclaration(ObjectProperty(<");
    push_all(&mut o, sup);
    push_str(&mut o, ">))\nSubObjectPropertyOf(<");
    push_all(&mut o, sub);
    push_str(&mut o, "> <");
    push_all(&mut o, sup);
    push_str(&mut o, ">)\n)");
    o
}

/// The text of a functional datatype property.
pub open spec fn functional_data_property_text(property: Seq<char>) -> Seq<char> {
    "Prefix(owl:=<http://www.w3.org/2002/07/owl#>)\nOntology(<http://example.org/functional-property-supplement>\nDeclaration(DataProperty(<"@ + property + ">))\nFunctionalDataProperty(<"@ + property + ">)\n)"@
}

pub(crate) fn functional_data_property(property: &Vec<char>) -> (r: Vec<char>)
    ensures
        r@ == functional_data_property_text(property@),
{
    let mut o: Vec<char> = Vec::new();
    push_str(&mut o, "Prefix(owl:=<http://www.w3.org/2002/07/owl#>)\nOntology(<http://example.org/functional-property-supplement>\nDeclaration(DataProperty(<");
    push_all(&mut o, property);
    push_str(&mut o, ">))\nFunctionalDataProperty(<");
    push_all(&mut o, property);
    push_str(&mut o, ">)\n)");
    o
}

/// The text of a functional object property.
pub open spec fn functional_object_property_text(property: Seq<char>) -> Seq<char> {
    "Prefix(owl:=<http://www.w3.org/2002/07/owl#>)\nOntology(<http://example.org/functional-property-supplement>\nDeclaration(ObjectProperty(<"@ + property + ">))\nFunctionalObjectProperty(<"@ + property + ">)\n)"@
}

pub(crate) fn functional_object_property(property: &Vec<char>) -> (r: Vec<char>)
    ensures
        r@ == functional_object_property_text(property@),
{
    let mut o: Vec<char> = Vec::new();
    push_str(&mut o, "Prefix(owl:=<http://www.w3.org/2002/07/owl#>)\nOntology(<http://example.org/functional-property-supplement>\nDeclaration(ObjectProperty(<");
    push_all(&mut o, property);
    push_str(&mut o, ">))\nFunctionalObjectProperty(<");
    push_all(&mut o, property);
    push_str(&mut o, ">)\n)");
    o
}

/// The text of a disjoint union axiom.
pub open spec fn disjoint_union_text(body: Seq<char>) -> Seq<char> {
    "Prefix(owl:=<http://www.w3.org/2002/07/owl#>)\nOntology(<http://example.org/disjoint-union-supplement>\n"@ + body + "\n)"@
}

pub(crate) fn disjoint_union(body: &Vec<char>) -> (r: Vec<char>)
    ensures
        r@ == disjoint_union_text(body@),
{
    let mut o: Vec<char> = Vec::new();
    push_str(&mut o, "Prefix(owl:=<http://www.w3.org/2002/07/owl#>)\nOntology(<http://example.org/disjoint-union-supplement>\n");
    push_all(&mut o, body);
    push_str(&mut o, "\n)");
    o
}

/// The text of a negative data property assertion, with the positive one on the same literal.
pub open spec fn negative_data_body_text(subject: Seq<char>, property: Seq<char>, literal: Seq<char>) -> Seq<char> {
    "Declaration(NamedIndividual(<"@ + subject + ">))\nDeclaration(DataProperty(<"@ + property + ">))\nNegativeDataPropertyAssertion(<"@ + property + "> <"@ + subject + "> \""@ + literal + "\"^^xsd:string)\nDataPropertyAssertion(<"@ + property + "> <"@ + subject + "> \""@ + literal + "\"^^xsd:string)"@
}

pub(crate) fn negative_data_body(subject: &Vec<char>, property: &Vec<char>, literal: &Vec<char>) -> (r: Vec<char>)
    ensures
        r@ == negative_data_body_text(subject@, property@, literal@),
{
    let mut o: Vec<char> = Vec::new();
    push_str(&mut o, "Declaration(NamedIndividual(<");
    push_all(&mut o, subject);
    push_str(&mut o, ">))\nDeclaration(DataProperty(<");
    push_all(&mut o, property);
    push_str(&mut o, ">))\nNegativeDataPropertyAssertion(<");
    push_all(&mut o, property);
    push_str(&mut o, "> <");
    push_all(&mut o, subject);
    push_str(&mut o, "> \"");
    push_all(&mut o, literal);
    push_str(&mut o, "\"^^xsd:string)\nDataPropertyAssertion(<");
    push_all(&mut o, property);
    push_str(&mut o, "> <");
    push_all(&mut o, subject);
    push_str(&mut o, "> \"");
    push_all(&mut o, literal);
    push_str(&mut o, "\"^^xsd:string)");
    o
}

/// The text of the positive data property assertion that accompanies a negative one.
pub open spec fn positive_data_line_text(property: Seq<char>, subject: Seq<char>, literal: Seq<char>) -> Seq<char> {
    "\nDataPropertyAssertion(<"@ + property + "> <"@ + subject + "> \""@ + literal + "\"^^xsd:string)"@
}

pub(crate) fn positive_data_line(property: &Vec<char>, subject: &Vec<char>, literal: &Vec<char>) -> (r: Vec<char>)
    ensures
        r@ == positive_data_line_text(property@, subject@, literal@),
{
    let mut o: Vec<char> = Vec::new();
    push_str(&mut o, "\nDataPropertyAssertion(<");
    push_all(&mut o, property);
    push_str(&mut o, "> <");
    push_all(&mut o, subject);
    push_str(&mut o, "> \"");
    push_all(&mut o, literal);
    push_str(&mut o, "\"^^xsd:string)");
    o
}

/// The text of negative data property assertions.
pub open spec fn negative_data_text(body: Seq<char>) -> Seq<char> {
    "Prefix(owl:=<http://www.w3.org/2002/07/owl#>)\nPrefix(xsd:=<http://www.w3.org/2001/XMLSchema#>)\nOntology(<http://example.org/data-npa-supplement>\n"@ + body + "\n)"@
}

pub(crate) fn negative_data(body: &Vec<char>) -> (r: Vec<char>)
    ensures
        r@ == negative_data_text(body@),
{
    let mut o: Vec<char> = Vec::new();
    push_str(&mut o, "Prefix(owl:=<http://www.w3.org/2002/07/owl#>)\nPrefix(xsd:=<http://www.w3.org/2001/XMLSchema#>)\nOntology(<http://example.org/data-npa-supplement>\n");
    push_all(&mut o, body);
    push_str(&mut o, "\n)");
    o
}

/// The text of an individual of owl:Thing with a data literal.
pub open spec fn thing_literal_body_text(subject: Seq<char>, property: Seq<char>, declaration: Seq<char>, literal: Seq<char>) -> Seq<char> {
    "Declaration(NamedIndividual(<"@ + subject + ">))\nDeclaration(DataProperty(<"@ + property + ">))\nClassAssertion(owl:Thing <"@ + subject + ">)"@ + declaration + "\nDataPropertyAssertion(<"@ + property + "> <"@ + subject + "> "@ + literal + ")"@
}

pub(crate) fn thing_literal_body(subject: &Vec<char>, property: &Vec<char>, declaration: &Vec<char>, literal: &Vec<char>) -> (r: Vec<char>)
    ensures
        r@ == thing_literal_body_text(subject@, property@, declaration@, literal@),
{
    let mut o: Vec<char> = Vec::new();
    push_str(&mut o, "Declaration(NamedIndividual(<");
    push_all(&mut o, subject);
    push_str(&mut o, ">))\nDeclaration(DataProperty(<");
    push_all(&mut o, property);
    push_str(&mut o, ">))\nClassAssertion(owl:Thing <");
    push_all(&mut o, subject);
    push_str(&mut o, ">)");
    push_all(&mut o, declaration);
    push_str(&mut o, "\nDataPropertyAssertion(<");
    push_all(&mut o, property);
    push_str(&mut o, "> <");
    push_all(&mut o, subject);
    push_str(&mut o, "> ");
    push_all(&mut o, literal);
    push_str(&mut o, ")");
    o
}

/// The text of data literals of owl:Thing individuals.
pub open spec fn thing_literal_text(prefixes: Seq<char>, body: Seq<char>) -> Seq<char> {
    "Prefix(owl:=<http://www.w3.org/2002/07/owl#>)\nPrefix(xsd:=<http://www.w3.org/2001/XMLSchema#>)\nPrefix(rdf:=<http://www.w3.org/1999/02/22-rdf-syntax-ns#>)\n"@ + prefixes + "\nOntology(<http://example.org/thing-data-literal-supplement>\n"@ + body + "\n)"@
}

pub(crate) fn thing_literal(prefixes: &Vec<char>, body: &Vec<char>) -> (r: Vec<char>)
    ensures
        r@ == thing_literal_text(prefixes@, body@),
{
    let mut o: Vec<char> = Vec::new();
    push_str(&mut o, "Prefix(owl:=<http://www.w3.org/2002/07/owl#>)\nPrefix(xsd:=<http://www.w3.org/2001/XMLSchema#>)\nPrefix(rdf:=<http://www.w3.org/1999/02/22-rdf-syntax-ns#>)\n");
    push_all(&mut o, prefixes);
    push_str(&mut o, "\nOntology(<http://example.org/thing-data-literal-supplement>\n");
    push_all(&mut o, body);
    push_str(&mut o, "\n)");
    o
}

/// The text of a negative object property assertion.
pub open spec fn negative_object_body_text(subject: Seq<char>, object: Seq<char>, property: Seq<char>) -> Seq<char> {
    "Declaration(NamedIndividual(<"@ + subject + ">))\nDeclaration(NamedIndividual(<"@ + object + ">))\nDeclaration(ObjectProperty(<"@ + property + ">))\nNegativeObjectPropertyAssertion(<"@ + property + "> <"@ + subject + "> <"@ + object + ">)"@
}

pub(crate) fn negative_object_body(subject: &Vec<char>, object: &Vec<char>, property: &Vec<char>) -> (r: Vec<char>)
    ensures
        r@ == negative_object_body_text(subject@, object@, property@),
{
    let mut o: Vec<char> = Vec::new();
    push_str(&mut o, "Declaration(NamedIndividual(<");
    push_all(&mut o, subject);
    push_str(&mut o, ">))\nDeclaration(NamedIndividual(<");
    push_all(&mut o, object);
    push_str(&mut o, ">))\nDeclaration(ObjectProperty(<");
    push_all(&mut o, property);
    push_str(&mut o, ">))\nNegativeObjectPropertyAssertion(<");
    push_all(&mut o, property);
    push_str(&mut o, "> <");
    push_all(&mut o, subject);
    push_str(&mut o, "> <");
    push_all(&mut o, object);
    push_str(&mut o, ">)");
    o
}

/// The text of the positive object property assertion that accompanies a negative one.
pub open spec fn positive_object_line_text(property: Seq<char>, subject: Seq<char>, object: Seq<char>) -> Seq<char> {
    "\nObjectPropertyAssertion(<"@ + property + "> <"@ + subject + "> <"@ + object + ">)"@
}

pub(crate) fn positive_object_line(property: &Vec<char>, subject: &Vec<char>, object: &Vec<char>) -> (r: Vec<char>)
    ensures
        r@ == positive_object_line_text(property@, subject@, object@),
{
    let mut o: Vec<char> = Vec::new();
    push_str(&mut o, "\nObjectPropertyAssertion(<");
    push_all(&mut o, property);
    push_str(&mut o, "> <");
    push_all(&mut o, subject);
    push_str(&mut o, "> <");
    push_all(&mut o, object);
    push_str(&mut o, ">)");
    o
}

/// The text of negative object property assertions.
pub open spec fn negative_object_text(body: Seq<char>) -> Seq<char> {
    "Prefix(owl:=<http://www.w3.org/2002/07/owl#>)\nOntology(<http://example.org/npa-supplement>\n"@ + body + "\n)"@
}

pub(crate) fn negative_object(body: &Vec<char>) -> (r: Vec<char>)
    ensures
        r@ == negative_object_text(body@),
{
    let mut o: Vec<char> = Vec::new();
    push_str(&mut o, "Prefix(owl:=<http://www.w3.org/2002/07/owl#>)\nOntology(<http://example.org/npa-supplement>\n");
    push_all(&mut o, body);
    push_str(&mut o, "\n)");
    o
}

/// What a supplement step does once its IRIs and bodies are validated and its assertions counted.
#[derive(Debug, PartialEq, Eq)]
pub enum SupplementAction {
    /// Nothing more.
    Count,
    /// Load the functional-syntax document and merge it.
    Merge(String),
    /// Alias two IRIs: as a datatype definition, as equivalent properties or as one individual.
    SameAs(String, String),
    /// Declare two object properties disjoint.
    DisjointProperties(String, String),
    /// Assert `owl:Thing` equivalent to `owl:Nothing`.
    IllFoundedList,
}

/// One step of supplementing an RDF/XML load: the IRIs and bodies to validate, in order, the
/// number of harvested assertions it counts, and its action.
#[derive(Debug, PartialEq, Eq)]
pub struct SupplementStep {
    /// IRIs to validate, in order.
    pub iris: Vec<String>,
    /// Functional-syntax bodies whose IRIs to validate, in order.
    pub bodies: Vec<String>,
    /// Harvested assertions the step counts against the limit.
    pub harvested: usize,
    /// What the step does.
    pub action: SupplementAction,
}

/// A supplement action, as sequences.
pub enum ActionView {
    /// Nothing more.
    Count,
    /// Merge a document.
    Merge(Seq<char>),
    /// Alias two IRIs.
    SameAs(Seq<char>, Seq<char>),
    /// Disjoint object properties.
    DisjointProperties(Seq<char>, Seq<char>),
    /// `owl:Thing` equivalent to `owl:Nothing`.
    IllFoundedList,
}

/// A supplement step, as sequences.
pub struct StepView {
    /// IRIs to validate.
    pub iris: Seq<Seq<char>>,
    /// Bodies to validate.
    pub bodies: Seq<Seq<char>>,
    /// Harvested assertions counted.
    pub harvested: usize,
    /// The action.
    pub action: ActionView,
}

impl View for SupplementStep {
    type V = StepView;

    open spec fn view(&self) -> StepView {
        StepView {
            iris: str_views(self.iris@),
            bodies: str_views(self.bodies@),
            harvested: self.harvested,
            action: match self.action {
                SupplementAction::Count => ActionView::Count,
                SupplementAction::Merge(d) => ActionView::Merge(d@),
                SupplementAction::SameAs(l, r) => ActionView::SameAs(l@, r@),
                SupplementAction::DisjointProperties(l, r) => ActionView::DisjointProperties(l@, r@),
                SupplementAction::IllFoundedList => ActionView::IllFoundedList,
            },
        }
    }
}

/// The views of a sequence of steps.
pub open spec fn step_views(s: Seq<SupplementStep>) -> Seq<StepView> {
    s.map_values(|x: SupplementStep| x@)
}

/// A step that validates `iris`, counts one assertion and merges `doc`.
pub open spec fn merge_step(iris: Seq<Seq<char>>, doc: Seq<char>) -> StepView {
    StepView { iris, bodies: Seq::empty(), harvested: 1, action: ActionView::Merge(doc) }
}

/// A step that validates `bodies`, counts one assertion and merges `doc`.
pub open spec fn body_step(bodies: Seq<Seq<char>>, doc: Seq<char>) -> StepView {
    StepView { iris: Seq::empty(), bodies, harvested: 1, action: ActionView::Merge(doc) }
}

fn strings1(a: &String) -> (r: Vec<String>)
    ensures
        str_views(r@) == seq![a@],
{
    let mut v: Vec<String> = Vec::new();
    v.push(a.clone());
    assert(str_views(v@) =~= seq![a@]);
    v
}

fn strings2(a: &String, b: &String) -> (r: Vec<String>)
    ensures
        str_views(r@) == seq![a@, b@],
{
    let mut v: Vec<String> = Vec::new();
    v.push(a.clone());
    v.push(b.clone());
    assert(str_views(v@) =~= seq![a@, b@]);
    v
}

fn strings3(a: &String, b: &String, c: &String) -> (r: Vec<String>)
    ensures
        str_views(r@) == seq![a@, b@, c@],
{
    let mut v: Vec<String> = Vec::new();
    v.push(a.clone());
    v.push(b.clone());
    v.push(c.clone());
    assert(str_views(v@) =~= seq![a@, b@, c@]);
    v
}

fn strings5(a: &String, b: &String, c: &String, d: &String, e: &String) -> (r: Vec<String>)
    ensures
        str_views(r@) == seq![a@, b@, c@, d@, e@],
{
    let mut v: Vec<String> = Vec::new();
    v.push(a.clone());
    v.push(b.clone());
    v.push(c.clone());
    v.push(d.clone());
    v.push(e.clone());
    assert(str_views(v@) =~= seq![a@, b@, c@, d@, e@]);
    v
}

fn merge_step_exec(iris: Vec<String>, doc: &Vec<char>) -> (r: SupplementStep)
    ensures
        r@ == merge_step(str_views(iris@), doc@),
{
    let r = SupplementStep {
        iris,
        bodies: Vec::new(),
        harvested: 1,
        action: SupplementAction::Merge(string_of(doc)),
    };
    assert(r@.bodies =~= Seq::<Seq<char>>::empty());
    r
}

fn body_step_exec(bodies: Vec<String>, doc: &Vec<char>) -> (r: SupplementStep)
    ensures
        r@ == body_step(str_views(bodies@), doc@),
{
    let r = SupplementStep {
        iris: Vec::new(),
        bodies,
        harvested: 1,
        action: SupplementAction::Merge(string_of(doc)),
    };
    assert(r@.iris =~= Seq::<Seq<char>>::empty());
    r
}

/// Append what `f` makes of each item, as `sf` states it.
fn push_steps<T, F: Fn(&T) -> SupplementStep>(
    out: &mut Vec<SupplementStep>,
    items: &Vec<T>,
    f: F,
    Ghost(sf): Ghost<spec_fn(T) -> StepView>,
)
    requires
        forall|x: &T| #[trigger] f.requires((x,)),
        forall|x: &T, s: SupplementStep| #[trigger] f.ensures((x,), s) ==> s@ == sf(*x),
    ensures
        step_views(final(out)@) == step_views(old(out)@) + items@.map_values(sf),
{
    let ghost start = step_views(out@);
    let mut i: usize = 0;
    while i < items.len()
        invariant
            0 <= i <= items.len(),
            forall|x: &T| #[trigger] f.requires((x,)),
            forall|x: &T, s: SupplementStep| #[trigger] f.ensures((x,), s) ==> s@ == sf(*x),
            step_views(out@) == start + items@.take(i as int).map_values(sf),
        decreases items.len() - i,
    {
        let s = f(&items[i]);
        let ghost before = out@;
        out.push(s);
        assert(step_views(out@) =~= step_views(before).push(s@));
        assert(items@.take(i + 1).map_values(sf) =~= items@.take(i as int).map_values(sf).push(sf(items@[i as int])));
        i += 1;
    }
    assert(items@.take(items.len() as int) =~= items@);
}

/// The step for an individual of a self-disjoint restriction.
pub open spec fn self_disjoint_step(t: TripleView) -> StepView {
    merge_step(seq![t.0, t.1], self_disjoint_text(t.0, t.1, t.2))
}

/// The step for a class assertion of a complex class expression.
pub open spec fn class_assertion_step(p: PairView) -> StepView {
    merge_step(seq![p.0], class_assertion_text(p.0, p.1))
}

/// The step for a named class below a class expression.
pub open spec fn subclass_step(p: PairView) -> StepView {
    merge_step(seq![p.0], subclass_text(p.0, p.1))
}

/// The step for the axioms of an anonymous restriction subclass.
pub open spec fn anonymous_restriction_step(body: Seq<char>) -> StepView {
    body_step(seq![body], anonymous_restriction_text(body))
}

/// The step for a named class equivalent to a boolean class expression.
pub open spec fn boolean_equivalence_step(p: PairView) -> StepView {
    let q = qualified_ce(p.1);
    merge_step(seq![p.0], boolean_equivalence_text(q.0, p.0, q.1))
}

/// The step for two equivalent boolean class expressions.
pub open spec fn boolean_binary_step(p: PairView) -> StepView {
    let l = qualified_ce(p.0);
    let r = qualified_ce(p.1);
    body_step(seq![l.1, r.1], boolean_binary_text(l.0, r.0, l.1, r.1))
}

/// The step that validates and counts one object property assertion.
pub open spec fn object_assertion_count_step(t: TripleView) -> StepView {
    StepView { iris: seq![t.0, t.1, t.2], bodies: Seq::empty(), harvested: 1, action: ActionView::Count }
}

/// The step that merges all object property assertions, if there are any.
pub open spec fn object_assertions_steps(ts: Seq<TripleView>) -> Seq<StepView> {
    if ts.len() == 0 {
        Seq::empty()
    } else {
        seq![
            StepView {
                iris: Seq::empty(),
                bodies: Seq::empty(),
                harvested: 0,
                action: ActionView::Merge(
                    object_assertions_text(
                        join_lines(
                            ts.map_values(|t: TripleView| object_assertion_body_text(t.0, t.1, t.2)),
                        ),
                    ),
                ),
            },
        ]
    }
}

/// The step for the range of a datatype property.
pub open spec fn datatype_range_step(p: PairView) -> StepView {
    merge_step(seq![p.0], datatype_range_text(p.0, p.1))
}

/// The step for an `owl:sameAs` pair.
pub open spec fn same_as_step(p: PairView) -> StepView {
    StepView { iris: seq![p.0, p.1], bodies: Seq::empty(), harvested: 1, action: ActionView::SameAs(p.0, p.1) }
}

/// The step for an `owl:propertyDisjointWith` pair.
pub open spec fn disjoint_properties_step(p: PairView) -> StepView {
    StepView {
        iris: seq![p.0, p.1],
        bodies: Seq::empty(),
        harvested: 1,
        action: ActionView::DisjointProperties(p.0, p.1),
    }
}

/// The step for the domain of an object property.
pub open spec fn property_domain_step(p: PairView) -> StepView {
    merge_step(seq![p.0, p.1], property_domain_text(p.0, p.1))
}

/// The step for the range of an object property.
pub open spec fn property_range_step(p: PairView) -> StepView {
    merge_step(seq![p.0, p.1], property_range_text(p.0, p.1))
}

/// The step for an object property below another.
pub open spec fn sub_property_step(p: PairView) -> StepView {
    merge_step(seq![p.0, p.1], sub_property_text(p.0, p.1))
}

/// The step for a functional property: a data property when it is declared as a datatype
/// property, else an object property.
pub open spec fn functional_step(property: Seq<char>, datatype_properties: Seq<Seq<char>>) -> StepView {
    merge_step(
        seq![property],
        if datatype_properties.contains(property) {
            functional_data_property_text(property)
        } else {
            functional_object_property_text(property)
        },
    )
}

/// The step for a disjoint union axiom.
pub open spec fn disjoint_union_step(body: Seq<char>) -> StepView {
    body_step(seq![body], disjoint_union_text(body))
}


/// `v` with every double quote escaped by a backslash.
pub open spec fn quote_escaped(v: Seq<char>) -> Seq<char> {
    replace_all(v, "\""@, "\\\""@)
}

/// The step for a negative data property assertion; the positive assertion the source also
/// makes is added when it differs from the negated one.
pub open spec fn data_npa_step(n: ReifiedView) -> StepView {
    let base = negative_data_body_text(n.0, n.1, quote_escaped(n.2));
    match n.3 {
        None => merge_step(seq![n.0, n.1], negative_data_text(base)),
        Some(pv) => merge_step(
            seq![n.0, n.1, pv.0],
            negative_data_text(
                if pv.0 != n.1 || pv.1 != n.2 {
                    base + positive_data_line_text(pv.0, n.0, quote_escaped(pv.1))
                } else {
                    base
                },
            ),
        ),
    }
}

/// The step for a negative object property assertion, with the positive assertion the source
/// also makes.
pub open spec fn npa_step(n: NpaView) -> StepView {
    let base = negative_object_body_text(n.0, n.2, n.1);
    match n.3 {
        None => merge_step(seq![n.0, n.2, n.1], negative_object_text(base)),
        Some(pv) => merge_step(
            seq![n.0, n.2, n.1, pv.0, pv.1],
            negative_object_text(base + positive_object_line_text(pv.0, n.0, pv.1)),
        ),
    }
}

/// `s` without the characters that `p` picks at its start.
pub open spec fn strip_front(s: Seq<char>, p: spec_fn(char) -> bool) -> Seq<char>
    decreases s.len(),
{
    if s.len() > 0 && p(s[0]) {
        strip_front(s.skip(1), p)
    } else {
        s
    }
}

/// `s` without the characters that `p` picks at its end.
pub open spec fn strip_back(s: Seq<char>, p: spec_fn(char) -> bool) -> Seq<char>
    decreases s.len(),
{
    if s.len() > 0 && p(s.last()) {
        strip_back(s.drop_last(), p)
    } else {
        s
    }
}

/// `s` without the characters that `p` picks at either end (`str::trim_matches`).
pub open spec fn trim_matching(s: Seq<char>, p: spec_fn(char) -> bool) -> Seq<char> {
    strip_back(strip_front(s, p), p)
}

/// The characters trimmed around a lexical form (quotes) or a datatype IRI (angle brackets).
pub open spec fn trimmed_char(angles: bool, c: char) -> bool {
    if angles {
        c == '<' || c == '>'
    } else {
        c == '"'
    }
}

fn is_trimmed_char(angles: bool, c: char) -> (r: bool)
    ensures
        r == trimmed_char(angles, c),
{
    if angles {
        c == '<' || c == '>'
    } else {
        c == '"'
    }
}

fn trim_matching_exec(s: &Vec<char>, angles: bool) -> (r: Vec<char>)
    ensures
        r@ == trim_matching(s@, |c: char| trimmed_char(angles, c)),
{
    let ghost p = |c: char| trimmed_char(angles, c);
    let mut a: usize = 0;
    assert(s@.skip(0) =~= s@);
    while a < s.len() && is_trimmed_char(angles, s[a])
        invariant
            0 <= a <= s.len(),
            p == (|c: char| trimmed_char(angles, c)),
            strip_front(s@, p) == strip_front(s@.skip(a as int), p),
        decreases s.len() - a,
    {
        assert(s@.skip(a as int).skip(1) =~= s@.skip(a + 1));
        a += 1;
    }
    let mut b: usize = s.len();
    while b > a && is_trimmed_char(angles, s[b - 1])
        invariant
            a <= b <= s.len(),
            p == (|c: char| trimmed_char(angles, c)),
            strip_front(s@, p) == s@.skip(a as int),
            strip_back(s@.skip(a as int), p) == strip_back(s@.subrange(a as int, b as int), p),
        decreases b - a,
    {
        assert(s@.subrange(a as int, b as int).drop_last() =~= s@.subrange(a as int, b - 1));
        b -= 1;
    }
    assert(s@.skip(a as int) =~= s@.subrange(a as int, s.len() as int));
    slice(s, a, b)
}

/// The lexical form and datatype IRI of a literal: split at its first `^^` with the quotes and
/// angle brackets trimmed, or the quote-escaped literal with no datatype.
pub open spec fn literal_split(v: Seq<char>) -> (Seq<char>, Seq<char>) {
    match find_from(v, 0, "^^"@) {
        Some(i) => (
            trim_matching(v.take(i), |c: char| trimmed_char(false, c)),
            trim_matching(v.skip(i + 2), |c: char| trimmed_char(true, c)),
        ),
        None => (quote_escaped(v), Seq::empty()),
    }
}

/// The step for a data literal of an `owl:Thing` individual.
pub open spec fn thing_literal_step(d: (Seq<char>, Seq<char>, Seq<char>)) -> StepView {
    let split = literal_split(d.2);
    let lexical = split.0;
    let datatype = split.1;
    let iris = if datatype.len() > 0 && contains(datatype, "://"@) {
        seq![d.0, d.1, datatype]
    } else {
        seq![d.0, d.1]
    };
    let parts: (Seq<char>, Seq<char>, Option<Seq<char>>) = if datatype.len() == 0 {
        if contains(d.2, "@"@) || contains(d.2, "^^"@) {
            (Seq::empty(), d.2, None)
        } else {
            (Seq::empty(), "\""@ + escape_ofn(lexical) + "\"^^rdf:PlainLiteral"@, None)
        }
    } else {
        qualified_typed_literal(lexical, datatype)
    };
    let declaration = match parts.2 {
        Some(x) => "\n       "@ + x,
        None => Seq::empty(),
    };
    merge_step(iris, thing_literal_text(parts.0, thing_literal_body_text(d.0, d.1, declaration, parts.1)))
}


fn chars_of_string(s: &String) -> (r: Vec<char>)
    ensures
        r@ == s@,
{
    chars_of(s.as_str())
}

fn self_disjoint_step_exec(t: &(String, String, String)) -> (r: SupplementStep)
    ensures
        r@ == self_disjoint_step((t.0@, t.1@, t.2@)),
{
    let doc = self_disjoint(&chars_of_string(&t.0), &chars_of_string(&t.1), &chars_of_string(&t.2));
    merge_step_exec(strings2(&t.0, &t.1), &doc)
}

fn class_assertion_step_exec(p: &(String, String)) -> (r: SupplementStep)
    ensures
        r@ == class_assertion_step((p.0@, p.1@)),
{
    let doc = class_assertion(&chars_of_string(&p.0), &chars_of_string(&p.1));
    merge_step_exec(strings1(&p.0), &doc)
}

fn subclass_step_exec(p: &(String, String)) -> (r: SupplementStep)
    ensures
        r@ == subclass_step((p.0@, p.1@)),
{
    let doc = subclass(&chars_of_string(&p.0), &chars_of_string(&p.1));
    merge_step_exec(strings1(&p.0), &doc)
}

fn anonymous_restriction_step_exec(b: &String) -> (r: SupplementStep)
    ensures
        r@ == anonymous_restriction_step(b@),
{
    let doc = anonymous_restriction(&chars_of_string(b));
    body_step_exec(strings1(b), &doc)
}

fn boolean_equivalence_step_exec(p: &(String, String)) -> (r: SupplementStep)
    ensures
        r@ == boolean_equivalence_step((p.0@, p.1@)),
{
    let (prefixes, ce) = qualify_ce_ofn_for_supplement(&chars_of_string(&p.1));
    let doc = boolean_equivalence(&prefixes, &chars_of_string(&p.0), &ce);
    merge_step_exec(strings1(&p.0), &doc)
}

fn boolean_binary_step_exec(p: &(String, String)) -> (r: SupplementStep)
    ensures
        r@ == boolean_binary_step((p.0@, p.1@)),
{
    let (lp, lq) = qualify_ce_ofn_for_supplement(&chars_of_string(&p.0));
    let (rp, rq) = qualify_ce_ofn_for_supplement(&chars_of_string(&p.1));
    let doc = boolean_binary(&lp, &rp, &lq, &rq);
    body_step_exec(strings2(&string_of(&lq), &string_of(&rq)), &doc)
}

fn object_assertion_count_step_exec(t: &(String, String, String)) -> (r: SupplementStep)
    ensures
        r@ == object_assertion_count_step((t.0@, t.1@, t.2@)),
{
    let r = SupplementStep {
        iris: strings3(&t.0, &t.1, &t.2),
        bodies: Vec::new(),
        harvested: 1,
        action: SupplementAction::Count,
    };
    assert(r@.bodies =~= Seq::<Seq<char>>::empty());
    r
}

fn push_object_assertions_step(out: &mut Vec<SupplementStep>, triples: &Vec<(String, String, String)>)
    ensures
        step_views(final(out)@) == step_views(old(out)@) + object_assertions_steps(triple_views(triples@)),
{
    if triples.len() == 0 {
        assert(step_views(out@) =~= step_views(out@) + Seq::<StepView>::empty());
        return;
    }
    let ghost bodies = triple_views(triples@).map_values(
        |t: TripleView| object_assertion_body_text(t.0, t.1, t.2),
    );
    let mut joined: Vec<char> = Vec::new();
    let mut i: usize = 0;
    while i < triples.len()
        invariant
            0 <= i <= triples.len(),
            bodies == triple_views(triples@).map_values(
                |t: TripleView| object_assertion_body_text(t.0, t.1, t.2),
            ),
            joined@ == join_lines(bodies.take(i as int)),
        decreases triples.len() - i,
    {
        let t = &triples[i];
        let body = object_assertion_body(&chars_of_string(&t.0), &chars_of_string(&t.1), &chars_of_string(&t.2));
        let ghost prev = joined@;
        if i > 0 {
            joined.push('\n');
        }
        push_all(&mut joined, &body);
        proof {
            let tk = bodies.take(i + 1);
            assert(tk.drop_last() =~= bodies.take(i as int));
            assert(tk.last() == body@);
            if i > 0 {
                assert(joined@ =~= prev + seq!['\n'] + body@);
            } else {
                assert(joined@ =~= body@);
            }
        }
        i += 1;
    }
    assert(bodies.take(triples.len() as int) =~= bodies);
    let doc = object_assertions(&joined);
    let step = SupplementStep {
        iris: Vec::new(),
        bodies: Vec::new(),
        harvested: 0,
        action: SupplementAction::Merge(string_of(&doc)),
    };
    let ghost before = out@;
    out.push(step);
    assert(step@.iris =~= Seq::<Seq<char>>::empty());
    assert(step@.bodies =~= Seq::<Seq<char>>::empty());
    assert(step_views(out@) =~= step_views(before) + object_assertions_steps(triple_views(triples@)));
}

fn datatype_range_step_exec(p: &(String, String)) -> (r: SupplementStep)
    ensures
        r@ == datatype_range_step((p.0@, p.1@)),
{
    let doc = datatype_range(&chars_of_string(&p.0), &chars_of_string(&p.1));
    merge_step_exec(strings1(&p.0), &doc)
}

fn same_as_step_exec(p: &(String, String)) -> (r: SupplementStep)
    ensures
        r@ == same_as_step((p.0@, p.1@)),
{
    let r = SupplementStep {
        iris: strings2(&p.0, &p.1),
        bodies: Vec::new(),
        harvested: 1,
        action: SupplementAction::SameAs(p.0.clone(), p.1.clone()),
    };
    assert(r@.bodies =~= Seq::<Seq<char>>::empty());
    r
}

fn disjoint_properties_step_exec(p: &(String, String)) -> (r: SupplementStep)
    ensures
        r@ == disjoint_properties_step((p.0@, p.1@)),
{
    let r = SupplementStep {
        iris: strings2(&p.0, &p.1),
        bodies: Vec::new(),
        harvested: 1,
        action: SupplementAction::DisjointProperties(p.0.clone(), p.1.clone()),
    };
    assert(r@.bodies =~= Seq::<Seq<char>>::empty());
    r
}

fn property_domain_step_exec(p: &(String, String)) -> (r: SupplementStep)
    ensures
        r@ == property_domain_step((p.0@, p.1@)),
{
    let doc = property_domain(&chars_of_string(&p.0), &chars_of_string(&p.1));
    merge_step_exec(strings2(&p.0, &p.1), &doc)
}

fn property_range_step_exec(p: &(String, String)) -> (r: SupplementStep)
    ensures
        r@ == property_range_step((p.0@, p.1@)),
{
    let doc = property_range(&chars_of_string(&p.0), &chars_of_string(&p.1));
    merge_step_exec(strings2(&p.0, &p.1), &doc)
}

fn sub_property_step_exec(p: &(String, String)) -> (r: SupplementStep)
    ensures
        r@ == sub_property_step((p.0@, p.1@)),
{
    let doc = sub_property(&chars_of_string(&p.0), &chars_of_string(&p.1));
    merge_step_exec(strings2(&p.0, &p.1), &doc)
}

fn holds_string(v: &Vec<String>, s: &String) -> (r: bool)
    ensures
        r == str_views(v@).contains(s@),
{
    let mut i: usize = 0;
    while i < v.len()
        invariant
            0 <= i <= v.len(),
            forall|j: int| 0 <= j < i ==> v@[j]@ != s@,
        decreases v.len() - i,
    {
        if v[i] == *s {
            assert(str_views(v@)[i as int] == s@);
            return true;
        }
        i += 1;
    }
    proof {
        if str_views(v@).contains(s@) {
            let j = choose|j: int| 0 <= j < str_views(v@).len() && str_views(v@)[j] == s@;
            assert(v@[j]@ == s@);
        }
    }
    false
}

fn functional_step_exec(p: &String, datatype_properties: &Vec<String>) -> (r: SupplementStep)
    ensures
        r@ == functional_step(p@, str_views(datatype_properties@)),
{
    let pc = chars_of_string(p);
    let doc = if holds_string(datatype_properties, p) {
        functional_data_property(&pc)
    } else {
        functional_object_property(&pc)
    };
    merge_step_exec(strings1(p), &doc)
}

fn push_functional_steps(out: &mut Vec<SupplementStep>, properties: &Vec<String>, datatype_properties: &Vec<String>)
    ensures
        step_views(final(out)@) == step_views(old(out)@) + properties@.map_values(
            |p: String| functional_step(p@, str_views(datatype_properties@)),
        ),
{
    let ghost start = step_views(out@);
    let ghost sf = |p: String| functional_step(p@, str_views(datatype_properties@));
    let mut i: usize = 0;
    while i < properties.len()
        invariant
            0 <= i <= properties.len(),
            sf == (|p: String| functional_step(p@, str_views(datatype_properties@))),
            step_views(out@) == start + properties@.take(i as int).map_values(sf),
        decreases properties.len() - i,
    {
        let s = functional_step_exec(&properties[i], datatype_properties);
        let ghost before = out@;
        out.push(s);
        assert(step_views(out@) =~= step_views(before).push(s@));
        assert(properties@.take(i + 1).map_values(sf) =~= properties@.take(i as int).map_values(sf).push(
            sf(properties@[i as int]),
        ));
        i += 1;
    }
    assert(properties@.take(properties.len() as int) =~= properties@);
}

fn disjoint_union_step_exec(b: &String) -> (r: SupplementStep)
    ensures
        r@ == disjoint_union_step(b@),
{
    let doc = disjoint_union(&chars_of_string(b));
    body_step_exec(strings1(b), &doc)
}

fn quote_escaped_exec(v: &String) -> (r: Vec<char>)
    ensures
        r@ == quote_escaped(v@),
{
    proof {
        reveal_strlit("\"");
    }
    replace_lit(&chars_of_string(v), "\"", "\\\"")
}

fn data_npa_step_exec(n: &ReifiedDataNpa) -> (r: SupplementStep)
    ensures
        r@ == data_npa_step(n.view()),
{
    let subject = chars_of_string(&n.subject);
    let property = chars_of_string(&n.property);
    let mut body = negative_data_body(&subject, &property, &quote_escaped_exec(&n.value_literal));
    match &n.positive_property {
        None => merge_step_exec(strings2(&n.subject, &n.property), &negative_data(&body)),
        Some((prop, value)) => {
            if *prop != n.property || *value != n.value_literal {
                let line = positive_data_line(&chars_of_string(prop), &subject, &quote_escaped_exec(value));
                push_all(&mut body, &line);
            }
            merge_step_exec(strings3(&n.subject, &n.property, prop), &negative_data(&body))
        },
    }
}

fn npa_step_exec(n: &ReifiedNpa) -> (r: SupplementStep)
    ensures
        r@ == npa_step(n@),
{
    let subject = chars_of_string(&n.subject);
    let mut body = negative_object_body(&subject, &chars_of_string(&n.object), &chars_of_string(&n.property));
    match &n.positive_property {
        None => merge_step_exec(strings3(&n.subject, &n.object, &n.property), &negative_object(&body)),
        Some((prop, object)) => {
            let line = positive_object_line(&chars_of_string(prop), &subject, &chars_of_string(object));
            push_all(&mut body, &line);
            let iris = strings5(&n.subject, &n.object, &n.property, prop, object);
            merge_step_exec(iris, &negative_object(&body))
        },
    }
}


fn thing_literal_step_exec(d: &DirectDataLiteralAssertion) -> (r: SupplementStep)
    ensures
        r@ == thing_literal_step(d@),
{
    let v = chars_of_string(&d.value_literal);
    let found = find_lit(&v, 0, "^^");
    proof {
        lemma_find_from_bounds(v@, 0, "^^"@);
        reveal_strlit("^^");
    }
    let (lexical, datatype) = match found {
        Some(i) => {
            let head = slice(&v, 0, i);
            let tail = slice(&v, i + 2, v.len());
            assert(head@ =~= v@.take(i as int));
            assert(tail@ =~= v@.skip(i + 2));
            (trim_matching_exec(&head, false), trim_matching_exec(&tail, true))
        },
        None => (quote_escaped_exec(&d.value_literal), Vec::new()),
    };
    assert((lexical@, datatype@) == literal_split(v@));
    let subject = chars_of_string(&d.subject);
    let property = chars_of_string(&d.property);
    let iris = if datatype.len() > 0 && contains_lit(&datatype, "://") {
        strings3(&d.subject, &d.property, &string_of(&datatype))
    } else {
        strings2(&d.subject, &d.property)
    };
    let (prefixes, literal, declared) = if datatype.len() == 0 {
        if contains_lit(&v, "@") || contains_lit(&v, "^^") {
            (Vec::new(), v, None)
        } else {
            let mut lit: Vec<char> = Vec::new();
            push_str(&mut lit, "\"");
            push_all(&mut lit, &escape_ofn_string(&lexical));
            push_str(&mut lit, "\"^^rdf:PlainLiteral");
            (Vec::new(), lit, None)
        }
    } else {
        qualify_typed_literal_for_supplement(&lexical, &datatype)
    };
    let mut declaration: Vec<char> = Vec::new();
    match &declared {
        Some(x) => {
            push_str(&mut declaration, "\n       ");
            push_all(&mut declaration, x);
        },
        None => {},
    }
    let body = thing_literal_body(&subject, &property, &declaration, &literal);
    let doc = thing_literal(&prefixes, &body);
    assert(declaration@ == match (match declared {
        Some(x) => Some(x@),
        None => None,
    }) {
        Some(x) => "\n       "@ + x,
        None => Seq::<char>::empty(),
    });
    merge_step_exec(iris, &doc)
}


/// The step that asserts `owl:Thing` equivalent to `owl:Nothing`.
pub open spec fn ill_founded_step() -> StepView {
    StepView { iris: Seq::empty(), bodies: Seq::empty(), harvested: 0, action: ActionView::IllFoundedList }
}

/// The steps for class-level axioms: self-disjoint restrictions, complex class assertions,
/// restriction subclasses, anonymous restriction subclasses and complement subclasses.
pub open spec fn class_steps(rdf: Seq<char>, anonymous: Seq<Seq<char>>) -> Seq<StepView> {
    self_disjoint_assertions(rdf).map_values(|t: TripleView| self_disjoint_step(t))
        + complex_class_assertions(rdf).map_values(|p: PairView| class_assertion_step(p))
        + restriction_subclasses(rdf).map_values(|p: PairView| subclass_step(p))
        + anonymous.map_values(|b: Seq<char>| anonymous_restriction_step(b))
        + complement_pairs(rdf).map_values(|p: PairView| subclass_step(p))
}

/// The steps for boolean equivalences, object property assertions (each counted, then merged
/// together) and datatype property ranges.
pub open spec fn equivalence_and_assertion_steps(rdf: Seq<char>, binary: Seq<PairView>) -> Seq<StepView> {
    boolean_equivalences(rdf).map_values(|p: PairView| boolean_equivalence_step(p))
        + binary.map_values(|p: PairView| boolean_binary_step(p))
        + object_property_assertions(rdf).map_values(|t: TripleView| object_assertion_count_step(t))
        + object_assertions_steps(object_property_assertions(rdf))
        + datatype_property_ranges(rdf).map_values(|p: PairView| datatype_range_step(p))
}

/// The steps for property axioms: `owl:sameAs` pairs, disjoint properties, object property
/// domains, ranges and subproperties.
pub open spec fn property_steps(rdf: Seq<char>, sub_properties: Seq<PairView>) -> Seq<StepView> {
    same_as_pairs(rdf).map_values(|p: PairView| same_as_step(p))
        + annotation_pairs(rdf, "owl:propertyDisjointWith"@).map_values(
        |p: PairView| disjoint_properties_step(p),
    ) + annotation_pairs(rdf, "rdfs:domain"@).map_values(|p: PairView| property_domain_step(p))
        + object_property_ranges(rdf).map_values(|p: PairView| property_range_step(p))
        + sub_properties.map_values(|p: PairView| sub_property_step(p))
}

/// The steps for functional properties, disjoint unions, negative data property assertions and
/// data literals of `owl:Thing` individuals.
pub open spec fn characteristic_and_data_steps(rdf: Seq<char>) -> Seq<StepView> {
    sorted_members(functional_candidates(rdf).to_set()).map_values(
        |p: Seq<char>| functional_step(p, sorted_members(declared_datatype_properties(rdf).to_set())),
    ) + disjoint_unions(rdf).map_values(|b: Seq<char>| disjoint_union_step(b))
        + reified_data_npas(rdf).map_values(|n: ReifiedView| data_npa_step(n))
        + direct_data_literals(rdf).map_values(|d: (Seq<char>, Seq<char>, Seq<char>)| thing_literal_step(d))
}

/// The steps that close the plan: the ill-founded list, then negative object property assertions.
pub open spec fn closing_steps(rdf: Seq<char>, ill_founded: bool) -> Seq<StepView> {
    (if ill_founded {
        seq![ill_founded_step()]
    } else {
        Seq::empty()
    }) + reified_npas(rdf).map_values(|n: NpaView| npa_step(n))
}

/// The steps that supplement the load of an RDF/XML document, in order: class axioms, boolean
/// equivalences, assertions and datatype ranges, property axioms, characteristics and data
/// assertions, and the closing steps.
pub open spec fn supplement_steps(
    rdf: Seq<char>,
    anonymous: Seq<Seq<char>>,
    binary: Seq<PairView>,
    sub_properties: Seq<PairView>,
    ill_founded: bool,
) -> Seq<StepView> {
    class_steps(rdf, anonymous) + equivalence_and_assertion_steps(rdf, binary) + property_steps(rdf, sub_properties)
        + characteristic_and_data_steps(rdf) + closing_steps(rdf, ill_founded)
}

#[verifier::rlimit(40)]
#[verifier::spinoff_prover]
fn push_class_steps(out: &mut Vec<SupplementStep>, rdf: &str, anonymous_restriction_bodies: &Vec<String>)
    ensures
        step_views(final(out)@) == step_views(old(out)@) + class_steps(rdf@, str_views(anonymous_restriction_bodies@)),
{
    let ghost mut acc: Seq<StepView> = step_views(out@);
    let ghost start = step_views(out@);
    let v = collect_self_disjoint_restriction_assertions(rdf);
    push_steps(out, &v, self_disjoint_step_exec, Ghost(|t: (String, String, String)| self_disjoint_step((t.0@, t.1@, t.2@))));
    proof {
        assert(v@.map_values(|t: (String, String, String)| self_disjoint_step((t.0@, t.1@, t.2@)))
            =~= self_disjoint_assertions(rdf@).map_values(|t: TripleView| self_disjoint_step(t)));
        acc = acc + self_disjoint_assertions(rdf@).map_values(|t: TripleView| self_disjoint_step(t));
    }

    let v = collect_object_class_assertions(rdf);
    push_steps(out, &v, class_assertion_step_exec, Ghost(|p: (String, String)| class_assertion_step((p.0@, p.1@))));
    proof {
        assert(v@.map_values(|p: (String, String)| class_assertion_step((p.0@, p.1@)))
            =~= complex_class_assertions(rdf@).map_values(|p: PairView| class_assertion_step(p)));
        acc = acc + complex_class_assertions(rdf@).map_values(|p: PairView| class_assertion_step(p));
    }

    let v = collect_restriction_subclasses(rdf);
    push_steps(out, &v, subclass_step_exec, Ghost(|p: (String, String)| subclass_step((p.0@, p.1@))));
    proof {
        assert(v@.map_values(|p: (String, String)| subclass_step((p.0@, p.1@)))
            =~= restriction_subclasses(rdf@).map_values(|p: PairView| subclass_step(p)));
        acc = acc + restriction_subclasses(rdf@).map_values(|p: PairView| subclass_step(p));
    }

    push_steps(out, anonymous_restriction_bodies, anonymous_restriction_step_exec, Ghost(|b: String| anonymous_restriction_step(b@)));
    proof {
        assert(anonymous_restriction_bodies@.map_values(|b: String| anonymous_restriction_step(b@))
            =~= str_views(anonymous_restriction_bodies@).map_values(|b: Seq<char>| anonymous_restriction_step(b)));
        acc = acc + str_views(anonymous_restriction_bodies@).map_values(|b: Seq<char>| anonymous_restriction_step(b));
    }

    let v = collect_complement_subclasses(rdf);
    push_steps(out, &v, subclass_step_exec, Ghost(|p: (String, String)| subclass_step((p.0@, p.1@))));
    proof {
        assert(v@.map_values(|p: (String, String)| subclass_step((p.0@, p.1@)))
            =~= complement_pairs(rdf@).map_values(|p: PairView| subclass_step(p)));
        acc = acc + complement_pairs(rdf@).map_values(|p: PairView| subclass_step(p));
    }

    assert(acc =~= start + class_steps(rdf@, str_views(anonymous_restriction_bodies@)));
}

#[verifier::rlimit(40)]
#[verifier::spinoff_prover]
fn push_equivalence_and_assertion_steps(out: &mut Vec<SupplementStep>, rdf: &str, boolean_binary_pairs: &Vec<(String, String)>)
    ensures
        step_views(final(out)@) == step_views(old(out)@) + equivalence_and_assertion_steps(rdf@, pair_views(boolean_binary_pairs@)),
{
    let ghost mut acc: Seq<StepView> = step_views(out@);
    let ghost start = step_views(out@);
    let v = collect_boolean_class_equivalences(rdf);
    push_steps(out, &v, boolean_equivalence_step_exec, Ghost(|p: (String, String)| boolean_equivalence_step((p.0@, p.1@))));
    proof {
        assert(v@.map_values(|p: (String, String)| boolean_equivalence_step((p.0@, p.1@)))
            =~= boolean_equivalences(rdf@).map_values(|p: PairView| boolean_equivalence_step(p)));
        acc = acc + boolean_equivalences(rdf@).map_values(|p: PairView| boolean_equivalence_step(p));
    }

    push_steps(out, boolean_binary_pairs, boolean_binary_step_exec, Ghost(|p: (String, String)| boolean_binary_step((p.0@, p.1@))));
    proof {
        assert(boolean_binary_pairs@.map_values(|p: (String, String)| boolean_binary_step((p.0@, p.1@)))
            =~= pair_views(boolean_binary_pairs@).map_values(|p: PairView| boolean_binary_step(p)));
        acc = acc + pair_views(boolean_binary_pairs@).map_values(|p: PairView| boolean_binary_step(p));
    }

    let v = collect_object_property_assertions(rdf);
    push_steps(out, &v, object_assertion_count_step_exec, Ghost(|t: (String, String, String)| object_assertion_count_step((t.0@, t.1@, t.2@))));
    push_object_assertions_step(out, &v);
    proof {
        assert(v@.map_values(|t: (String, String, String)| object_assertion_count_step((t.0@, t.1@, t.2@)))
            =~= object_property_assertions(rdf@).map_values(|t: TripleView| object_assertion_count_step(t)));
        acc = acc + object_property_assertions(rdf@).map_values(|t: TripleView| object_assertion_count_step(t))
            + object_assertions_steps(object_property_assertions(rdf@));
    }

    let v = collect_datatype_property_ranges(rdf);
    push_steps(out, &v, datatype_range_step_exec, Ghost(|p: (String, String)| datatype_range_step((p.0@, p.1@))));
    proof {
        assert(v@.map_values(|p: (String, String)| datatype_range_step((p.0@, p.1@)))
            =~= datatype_property_ranges(rdf@).map_values(|p: PairView| datatype_range_step(p)));
        acc = acc + datatype_property_ranges(rdf@).map_values(|p: PairView| datatype_range_step(p));
    }

    assert(acc =~= start + equivalence_and_assertion_steps(rdf@, pair_views(boolean_binary_pairs@)));
}

#[verifier::rlimit(40)]
#[verifier::spinoff_prover]
fn push_property_steps(out: &mut Vec<SupplementStep>, rdf: &str, sub_properties: &Vec<(String, String)>)
    ensures
        step_views(final(out)@) == step_views(old(out)@) + property_steps(rdf@, pair_views(sub_properties@)),
{
    let ghost mut acc: Seq<StepView> = step_views(out@);
    let ghost start = step_views(out@);
    let v = collect_owl_same_as_pairs(rdf);
    push_steps(out, &v, same_as_step_exec, Ghost(|p: (String, String)| same_as_step((p.0@, p.1@))));
    proof {
        assert(v@.map_values(|p: (String, String)| same_as_step((p.0@, p.1@)))
            =~= same_as_pairs(rdf@).map_values(|p: PairView| same_as_step(p)));
        acc = acc + same_as_pairs(rdf@).map_values(|p: PairView| same_as_step(p));
    }

    let v = collect_property_disjoint_pairs(rdf);
    push_steps(out, &v, disjoint_properties_step_exec, Ghost(|p: (String, String)| disjoint_properties_step((p.0@, p.1@))));
    proof {
        assert(v@.map_values(|p: (String, String)| disjoint_properties_step((p.0@, p.1@)))
            =~= annotation_pairs(rdf@, "owl:propertyDisjointWith"@).map_values(|p: PairView| disjoint_properties_step(p)));
        acc = acc + annotation_pairs(rdf@, "owl:propertyDisjointWith"@).map_values(|p: PairView| disjoint_properties_step(p));
    }

    let v = collect_rdfs_object_property_domains(rdf);
    push_steps(out, &v, property_domain_step_exec, Ghost(|p: (String, String)| property_domain_step((p.0@, p.1@))));
    proof {
        assert(v@.map_values(|p: (String, String)| property_domain_step((p.0@, p.1@)))
            =~= annotation_pairs(rdf@, "rdfs:domain"@).map_values(|p: PairView| property_domain_step(p)));
        acc = acc + annotation_pairs(rdf@, "rdfs:domain"@).map_values(|p: PairView| property_domain_step(p));
    }

    let v = collect_rdfs_object_property_ranges(rdf);
    push_steps(out, &v, property_range_step_exec, Ghost(|p: (String, String)| property_range_step((p.0@, p.1@))));
    proof {
        assert(v@.map_values(|p: (String, String)| property_range_step((p.0@, p.1@)))
            =~= object_property_ranges(rdf@).map_values(|p: PairView| property_range_step(p)));
        acc = acc + object_property_ranges(rdf@).map_values(|p: PairView| property_range_step(p));
    }

    push_steps(out, sub_properties, sub_property_step_exec, Ghost(|p: (String, String)| sub_property_step((p.0@, p.1@))));
    proof {
        assert(sub_properties@.map_values(|p: (String, String)| sub_property_step((p.0@, p.1@)))
            =~= pair_views(sub_properties@).map_values(|p: PairView| sub_property_step(p)));
        acc = acc + pair_views(sub_properties@).map_values(|p: PairView| sub_property_step(p));
    }

    assert(acc =~= start + property_steps(rdf@, pair_views(sub_properties@)));
}

#[verifier::rlimit(40)]
#[verifier::spinoff_prover]
fn push_characteristic_and_data_steps(out: &mut Vec<SupplementStep>, rdf: &str)
    ensures
        step_views(final(out)@) == step_views(old(out)@) + characteristic_and_data_steps(rdf@),
{
    let ghost mut acc: Seq<StepView> = step_views(out@);
    let ghost start = step_views(out@);
    let v = collect_functional_object_properties(rdf);
    let dts = declared_datatype_property_iris(rdf);
    let ghost dv = str_views(dts@);
    push_functional_steps(out, &v, &dts);
    proof {
        assert(v@.map_values(|p: String| functional_step(p@, dv))
            =~= sorted_members(functional_candidates(rdf@).to_set()).map_values(
            |p: Seq<char>| functional_step(p, sorted_members(declared_datatype_properties(rdf@).to_set())),
        ));
        acc = acc + sorted_members(functional_candidates(rdf@).to_set()).map_values(
            |p: Seq<char>| functional_step(p, sorted_members(declared_datatype_properties(rdf@).to_set())),
        );
    }

    let v = collect_disjoint_union_axioms(rdf);
    push_steps(out, &v, disjoint_union_step_exec, Ghost(|b: String| disjoint_union_step(b@)));
    proof {
        assert(v@.map_values(|b: String| disjoint_union_step(b@))
            =~= disjoint_unions(rdf@).map_values(|b: Seq<char>| disjoint_union_step(b)));
        acc = acc + disjoint_unions(rdf@).map_values(|b: Seq<char>| disjoint_union_step(b));
    }

    let v = collect_reified_data_npas(rdf);
    push_steps(out, &v, data_npa_step_exec, Ghost(|n: ReifiedDataNpa| data_npa_step(n.view())));
    proof {
        assert(v@.map_values(|n: ReifiedDataNpa| data_npa_step(n.view()))
            =~= reified_data_npas(rdf@).map_values(|n: ReifiedView| data_npa_step(n)));
        acc = acc + reified_data_npas(rdf@).map_values(|n: ReifiedView| data_npa_step(n));
    }

    let v = collect_direct_data_literal_assertions(rdf);
    push_steps(out, &v, thing_literal_step_exec, Ghost(|d: DirectDataLiteralAssertion| thing_literal_step(d@)));
    proof {
        assert(v@.map_values(|d: DirectDataLiteralAssertion| thing_literal_step(d@))
            =~= direct_data_literals(rdf@).map_values(|d: (Seq<char>, Seq<char>, Seq<char>)| thing_literal_step(d)));
        acc = acc + direct_data_literals(rdf@).map_values(|d: (Seq<char>, Seq<char>, Seq<char>)| thing_literal_step(d));
    }

    assert(acc =~= start + characteristic_and_data_steps(rdf@));
}

fn push_closing_steps(out: &mut Vec<SupplementStep>, rdf: &str, ill_founded_list: bool)
    ensures
        step_views(final(out)@) == step_views(old(out)@) + closing_steps(rdf@, ill_founded_list),
{
    let ghost mut acc: Seq<StepView> = step_views(out@);
    let ghost start = step_views(out@);
    if ill_founded_list {
        let step = SupplementStep {
            iris: Vec::new(),
            bodies: Vec::new(),
            harvested: 0,
            action: SupplementAction::IllFoundedList,
        };
        let ghost before = out@;
        out.push(step);
        assert(step@.iris =~= Seq::<Seq<char>>::empty());
        assert(step@.bodies =~= Seq::<Seq<char>>::empty());
        assert(step_views(out@) =~= step_views(before) + seq![ill_founded_step()]);
    } else {
        assert(step_views(out@) =~= step_views(out@) + Seq::<StepView>::empty());
    }
    proof {
        acc = acc + (if ill_founded_list { seq![ill_founded_step()] } else { Seq::<StepView>::empty() });
    }

    let v = collect_reified_npas(rdf);
    push_steps(out, &v, npa_step_exec, Ghost(|n: ReifiedNpa| npa_step(n@)));
    proof {
        assert(v@.map_values(|n: ReifiedNpa| npa_step(n@))
            =~= reified_npas(rdf@).map_values(|n: NpaView| npa_step(n)));
        acc = acc + reified_npas(rdf@).map_values(|n: NpaView| npa_step(n));
    }
    assert(acc =~= start + closing_steps(rdf@, ill_founded_list));
}

/// Plan the supplement of an RDF/XML load: the steps whose documents and validations make up
/// the axioms the mapping misses. The anonymous restriction bodies, binary boolean equivalences
/// and RDFS subproperty pairs come from the caller, as does whether the document holds an
/// ill-founded list.
pub fn supplement_plan(
    rdf: &str,
    anonymous_restriction_bodies: &Vec<String>,
    boolean_binary_pairs: &Vec<(String, String)>,
    sub_properties: &Vec<(String, String)>,
    ill_founded_list: bool,
) -> (r: Vec<SupplementStep>)
    ensures
        step_views(r@) == supplement_steps(
            rdf@,
            str_views(anonymous_restriction_bodies@),
            pair_views(boolean_binary_pairs@),
            pair_views(sub_properties@),
            ill_founded_list,
        ),
{
    let mut out: Vec<SupplementStep> = Vec::new();
    assert(step_views(out@) =~= Seq::<StepView>::empty());
    push_class_steps(&mut out, rdf, anonymous_restriction_bodies);
    push_equivalence_and_assertion_steps(&mut out, rdf, boolean_binary_pairs);
    push_property_steps(&mut out, rdf, sub_properties);
    push_characteristic_and_data_steps(&mut out, rdf);
    push_closing_steps(&mut out, rdf, ill_founded_list);
    assert(step_views(out@) =~= supplement_steps(
        rdf@,
        str_views(anonymous_restriction_bodies@),
        pair_views(boolean_binary_pairs@),
        pair_views(sub_properties@),
        ill_founded_list,
    ));
    out
}


/// The datatype definition that an `owl:sameAs` pair with an XML Schema side makes: the other
/// side defined as the XML Schema datatype. None when neither side names XML Schema.
pub open spec fn datatype_same_as_text(left: Seq<char>, right: Seq<char>) -> Option<Seq<char>> {
    if !(contains(left, "XMLSchema"@) || contains(right, "XMLSchema"@)) {
        None
    } else {
        let alias = if contains(left, "XMLSchema"@) { right } else { left };
        let xsd = if contains(left, "XMLSchema"@) { left } else { right };
        let a = qualified_datatype_ref(alias);
        let x = qualified_datatype_ref(xsd);
        Some(datatype_same_as_document_text(a.0, a.1, x.1))
    }
}

/// The document for an `owl:sameAs` pair between datatypes, if one side is an XML Schema datatype.
pub fn datatype_same_as_supplement(left: &str, right: &str) -> (r: Option<String>)
    ensures
        match r {
            Some(d) => datatype_same_as_text(left@, right@) == Some(d@),
            None => datatype_same_as_text(left@, right@) is None,
        },
{
    let l = chars_of(left);
    let rt = chars_of(right);
    let left_xsd = contains_lit(&l, "XMLSchema");
    if !(left_xsd || contains_lit(&rt, "XMLSchema")) {
        return None;
    }
    let (alias, xsd) = if left_xsd { (rt, l) } else { (l, rt) };
    let (alias_prefixes, alias_ref) = qualify_datatype_ref_for_supplement(&alias);
    let (_, xsd_ref) = qualify_datatype_ref_for_supplement(&xsd);
    Some(string_of(&datatype_same_as_document(&alias_prefixes, &alias_ref, &xsd_ref)))
}

/// The document for an `owl:sameAs` pair between object properties.
pub fn property_same_as_supplement(left: &str, right: &str) -> (r: String)
    ensures
        r@ == property_same_as_text(left@, right@),
{
    string_of(&property_same_as(&chars_of(left), &chars_of(right)))
}

/// `iri` is the property of some object property assertion of `rdf`.
pub open spec fn asserted_property(rdf: Seq<char>, iri: Seq<char>) -> bool {
    exists|i: int| 0 <= i < object_property_assertions(rdf).len() && (#[trigger] object_property_assertions(rdf)[i]).1 == iri
}

/// Whether `iri` is the property of some object property assertion of the RDF/XML document.
pub fn asserted_as_object_property(rdf: &str, iri: &str) -> (r: bool)
    ensures
        r == asserted_property(rdf@, iri@),
{
    let v = collect_object_property_assertions(rdf);
    let target = chars_of(iri);
    let mut i: usize = 0;
    while i < v.len()
        invariant
            0 <= i <= v.len(),
            triple_views(v@) == object_property_assertions(rdf@),
            target@ == iri@,
            forall|j: int| 0 <= j < i ==> (#[trigger] object_property_assertions(rdf@)[j]).1 != iri@,
        decreases v.len() - i,
    {
        let p = chars_of_string(&v[i].1);
        assert(object_property_assertions(rdf@)[i as int] == triple_views(v@)[i as int]);
        if vec_eq(&p, &target) {
            return true;
        }
        i += 1;
    }
    false
}

/// A character that would break an IRI interpolated into functional syntax.
pub open spec fn functional_metacharacter(c: char) -> bool {
    c == '>' || c == ')' || c == '\n' || c == '\r'
}

/// The error for an IRI holding a functional-syntax metacharacter, if it holds one.
pub open spec fn metacharacter_error(iri: Seq<char>) -> Option<Seq<char>> {
    if exists|i: int| 0 <= i < iri.len() && functional_metacharacter(#[trigger] iri[i]) {
        Some("supplement IRI contains OWL functional metacharacters: "@ + iri)
    } else {
        None
    }
}

/// Reject an IRI that would break functional-syntax interpolation in a supplement.
pub fn functional_metacharacter_error(iri: &str) -> (r: Option<String>)
    ensures
        match r {
            Some(m) => metacharacter_error(iri@) == Some(m@),
            None => metacharacter_error(iri@) is None,
        },
{
    let s = chars_of(iri);
    let mut i: usize = 0;
    while i < s.len()
        invariant
            0 <= i <= s.len(),
            s@ == iri@,
            forall|j: int| 0 <= j < i ==> !functional_metacharacter(#[trigger] s@[j]),
        decreases s.len() - i,
    {
        let c = s[i];
        if c == '>' || c == ')' || c == '\n' || c == '\r' {
            assert(functional_metacharacter(s@[i as int]));
            let mut m: Vec<char> = Vec::new();
            push_str(&mut m, "supplement IRI contains OWL functional metacharacters: ");
            push_all(&mut m, &s);
            return Some(string_of(&m));
        }
        i += 1;
    }
    None
}

/// The IRIs of the `<...>` tokens of a functional-syntax body, in order, and whether every token
/// is closed; scanning stops at the first unclosed one.
pub open spec fn body_iris(s: Seq<char>) -> (Seq<Seq<char>>, bool)
    decreases s.len(),
{
    match index_of(s, '<') {
        None => (Seq::empty(), true),
        Some(i) => {
            let after = s.skip(i + 1);
            match index_of(after, '>') {
                None => (Seq::empty(), false),
                Some(j) => {
                    proof {
                        lemma_find_from_bounds(s, 0, seq!['<']);
                        lemma_find_from_bounds(after, 0, seq!['>']);
                    }
                    let rest = body_iris(after.skip(j + 1));
                    (seq![after.take(j)] + rest.0, rest.1)
                },
            }
        },
    }
}

/// The IRIs to validate in a supplement body, and whether every `<` token is closed (else the body
/// is rejected as holding an unterminated IRI once the IRIs before it pass).
pub fn supplement_body_iris(body: &str) -> (r: (Vec<String>, bool))
    ensures
        (str_views(r.0@), r.1) == body_iris(body@),
{
    let mut rest = chars_of(body);
    let mut found: Vec<String> = Vec::new();
    assert(str_views(found@) + body_iris(rest@).0 =~= body_iris(body@).0);
    loop
        invariant
            (str_views(found@) + body_iris(rest@).0, body_iris(rest@).1) == body_iris(body@),
        decreases rest.len(),
    {
        let open = index_of_exec(&rest, '<');
        proof {
            lemma_find_from_bounds(rest@, 0, seq!['<']);
        }
        match open {
            None => {
                assert(str_views(found@) + Seq::<Seq<char>>::empty() =~= str_views(found@));
                return (found, true);
            },
            Some(i) => {
                let after = slice(&rest, i + 1, rest.len());
                assert(after@ =~= rest@.skip(i + 1));
                let close = index_of_exec(&after, '>');
                proof {
                    lemma_find_from_bounds(after@, 0, seq!['>']);
                }
                match close {
                    None => {
                        assert(str_views(found@) + Seq::<Seq<char>>::empty() =~= str_views(found@));
                        return (found, false);
                    },
                    Some(j) => {
                        let iri = slice(&after, 0, j);
                        let next = slice(&after, j + 1, after.len());
                        assert(iri@ =~= after@.take(j as int));
                        assert(next@ =~= after@.skip(j + 1));
                        let ghost before = found@;
                        found.push(string_of(&iri));
                        proof {
                            assert(str_views(found@) =~= str_views(before).push(iri@));
                            assert(str_views(found@) + body_iris(next@).0 =~= str_views(before) + (seq![iri@] + body_iris(next@).0));
                        }
                        rest = next;
                    },
                }
            },
        }
    }
}

} // verus!
