//! The OWL constructs that decide which OWL 2 profile an ontology fits, the constructs
//! each profile rules out, and the detection of the most specific profile.
use vstd::prelude::*;

use crate::profile::{OwlProfile, ProfileDiagnostic, ProfileReport};

verus! {

/// An OWL construct whose presence decides which OWL 2 profile an ontology fits.
#[derive(Debug, Clone, Copy, PartialEq, Eq, Structural)]
pub enum OwlConstruct {
    ObjectUnionOf,
    SubClassOfExistential,
    DataPropertyAxiom,
    SymmetricObjectProperty,
    TransitiveObjectProperty,
    ObjectSomeValuesFrom,
    InverseObjectProperties,
    ObjectAllValuesFrom,
    Datatype,
    DataPropertyAssertion,
    SwrlRule,
    SubClassOfNamed,
    ReflexiveObjectProperty,
    IndividualEquality,
    ObjectPropertyAssertion,
    ObjectOneOf,
    ObjectHasValue,
    ObjectHasSelf,
    ObjectComplementOf,
    ObjectCardinality,
    IrreflexiveObjectProperty,
    HasKey,
    FunctionalObjectProperty,
    ClassAssertion,
    AsymmetricObjectProperty,
    SubObjectPropertyChain,
    ObjectIntersectionOf,
    InverseFunctionalObjectProperty,
    EquivalentObjectProperties,
    DisjointUnion,
    SubObjectPropertyOf,
    SubClassOfIntersection,
    ObjectPropertyRange,
    ObjectPropertyDomain,
    EquivalentClasses,
    DisjointClasses,
    DisjointObjectProperties,
    Unknown,
    Import,
    Annotation,
}

/// The name under which a construct is reported in diagnostics.
pub open spec fn construct_name(c: OwlConstruct) -> Seq<char> {
    match c {
        OwlConstruct::ObjectUnionOf => "ObjectUnionOf"@,
        OwlConstruct::SubClassOfExistential => "SubClassOfExistential"@,
        OwlConstruct::DataPropertyAxiom => "DataPropertyAxiom"@,
        OwlConstruct::SymmetricObjectProperty => "SymmetricObjectProperty"@,
        OwlConstruct::TransitiveObjectProperty => "TransitiveObjectProperty"@,
        OwlConstruct::ObjectSomeValuesFrom => "ObjectSomeValuesFrom"@,
        OwlConstruct::InverseObjectProperties => "InverseObjectProperties"@,
        OwlConstruct::ObjectAllValuesFrom => "ObjectAllValuesFrom"@,
        OwlConstruct::Datatype => "Datatype"@,
        OwlConstruct::DataPropertyAssertion => "DataPropertyAssertion"@,
        OwlConstruct::SwrlRule => "SwrlRule"@,
        OwlConstruct::SubClassOfNamed => "SubClassOfNamed"@,
        OwlConstruct::ReflexiveObjectProperty => "ReflexiveObjectProperty"@,
        OwlConstruct::IndividualEquality => "IndividualEquality"@,
        OwlConstruct::ObjectPropertyAssertion => "ObjectPropertyAssertion"@,
        OwlConstruct::ObjectOneOf => "ObjectOneOf"@,
        OwlConstruct::ObjectHasValue => "ObjectHasValue"@,
        OwlConstruct::ObjectHasSelf => "ObjectHasSelf"@,
        OwlConstruct::ObjectComplementOf => "ObjectComplementOf"@,
        OwlConstruct::ObjectCardinality => "ObjectCardinality"@,
        OwlConstruct::IrreflexiveObjectProperty => "IrreflexiveObjectProperty"@,
        OwlConstruct::HasKey => "HasKey"@,
        OwlConstruct::FunctionalObjectProperty => "FunctionalObjectProperty"@,
        OwlConstruct::ClassAssertion => "ClassAssertion"@,
        OwlConstruct::AsymmetricObjectProperty => "AsymmetricObjectProperty"@,
        OwlConstruct::SubObjectPropertyChain => "SubObjectPropertyChain"@,
        OwlConstruct::ObjectIntersectionOf => "ObjectIntersectionOf"@,
        OwlConstruct::InverseFunctionalObjectProperty => "InverseFunctionalObjectProperty"@,
        OwlConstruct::EquivalentObjectProperties => "EquivalentObjectProperties"@,
        OwlConstruct::DisjointUnion => "DisjointUnion"@,
        OwlConstruct::SubObjectPropertyOf => "SubObjectPropertyOf"@,
        OwlConstruct::SubClassOfIntersection => "SubClassOfIntersection"@,
        OwlConstruct::ObjectPropertyRange => "ObjectPropertyRange"@,
        OwlConstruct::ObjectPropertyDomain => "ObjectPropertyDomain"@,
        OwlConstruct::EquivalentClasses => "EquivalentClasses"@,
        OwlConstruct::DisjointClasses => "DisjointClasses"@,
        OwlConstruct::DisjointObjectProperties => "DisjointObjectProperties"@,
        OwlConstruct::Unknown => "Unknown"@,
        OwlConstruct::Import => "Import"@,
        OwlConstruct::Annotation => "Annotation"@,
    }
}

impl OwlConstruct {
    /// The construct's name, as diagnostics report it.
    pub fn name(&self) -> (r: &'static str)
        ensures
            r@ == construct_name(*self),
    {
        match self {
            OwlConstruct::ObjectUnionOf => "ObjectUnionOf",
            OwlConstruct::SubClassOfExistential => "SubClassOfExistential",
            OwlConstruct::DataPropertyAxiom => "DataPropertyAxiom",
            OwlConstruct::SymmetricObjectProperty => "SymmetricObjectProperty",
            OwlConstruct::TransitiveObjectProperty => "TransitiveObjectProperty",
            OwlConstruct::ObjectSomeValuesFrom => "ObjectSomeValuesFrom",
            OwlConstruct::InverseObjectProperties => "InverseObjectProperties",
            OwlConstruct::ObjectAllValuesFrom => "ObjectAllValuesFrom",
            OwlConstruct::Datatype => "Datatype",
            OwlConstruct::DataPropertyAssertion => "DataPropertyAssertion",
            OwlConstruct::SwrlRule => "SwrlRule",
            OwlConstruct::SubClassOfNamed => "SubClassOfNamed",
            OwlConstruct::ReflexiveObjectProperty => "ReflexiveObjectProperty",
            OwlConstruct::IndividualEquality => "IndividualEquality",
            OwlConstruct::ObjectPropertyAssertion => "ObjectPropertyAssertion",
            OwlConstruct::ObjectOneOf => "ObjectOneOf",
            OwlConstruct::ObjectHasValue => "ObjectHasValue",
            OwlConstruct::ObjectHasSelf => "ObjectHasSelf",
            OwlConstruct::ObjectComplementOf => "ObjectComplementOf",
            OwlConstruct::ObjectCardinality => "ObjectCardinality",
            OwlConstruct::IrreflexiveObjectProperty => "IrreflexiveObjectProperty",
            OwlConstruct::HasKey => "HasKey",
            OwlConstruct::FunctionalObjectProperty => "FunctionalObjectProperty",
            OwlConstruct::ClassAssertion => "ClassAssertion",
            OwlConstruct::AsymmetricObjectProperty => "AsymmetricObjectProperty",
            OwlConstruct::SubObjectPropertyChain => "SubObjectPropertyChain",
            OwlConstruct::ObjectIntersectionOf => "ObjectIntersectionOf",
            OwlConstruct::InverseFunctionalObjectProperty => "InverseFunctionalObjectProperty",
            OwlConstruct::EquivalentObjectProperties => "EquivalentObjectProperties",
            OwlConstruct::DisjointUnion => "DisjointUnion",
            OwlConstruct::SubObjectPropertyOf => "SubObjectPropertyOf",
            OwlConstruct::SubClassOfIntersection => "SubClassOfIntersection",
            OwlConstruct::ObjectPropertyRange => "ObjectPropertyRange",
            OwlConstruct::ObjectPropertyDomain => "ObjectPropertyDomain",
            OwlConstruct::EquivalentClasses => "EquivalentClasses",
            OwlConstruct::DisjointClasses => "DisjointClasses",
            OwlConstruct::DisjointObjectProperties => "DisjointObjectProperties",
            OwlConstruct::Unknown => "Unknown",
            OwlConstruct::Import => "Import",
            OwlConstruct::Annotation => "Annotation",
        }
    }
}

/// Constructs that fall outside OWL 2 EL.
pub open spec fn outside_el(c: OwlConstruct) -> bool {
    match c {
        OwlConstruct::ObjectAllValuesFrom |
        OwlConstruct::ObjectComplementOf |
        OwlConstruct::ObjectUnionOf |
        OwlConstruct::ObjectOneOf |
        OwlConstruct::ObjectCardinality |
        OwlConstruct::ObjectHasValue |
        OwlConstruct::ObjectHasSelf |
        OwlConstruct::SubObjectPropertyChain |
        OwlConstruct::DisjointUnion |
        OwlConstruct::HasKey |
        OwlConstruct::IndividualEquality |
        OwlConstruct::ClassAssertion |
        OwlConstruct::ObjectPropertyAssertion |
        OwlConstruct::DataPropertyAssertion |
        OwlConstruct::SwrlRule |
        OwlConstruct::InverseObjectProperties |
        OwlConstruct::FunctionalObjectProperty |
        OwlConstruct::InverseFunctionalObjectProperty |
        OwlConstruct::SymmetricObjectProperty |
        OwlConstruct::ReflexiveObjectProperty |
        OwlConstruct::AsymmetricObjectProperty |
        OwlConstruct::IrreflexiveObjectProperty |
        OwlConstruct::DisjointObjectProperties |
        OwlConstruct::EquivalentObjectProperties => true,
        _ => false,
    }
}

/// Constructs that the EL completion engine cannot soundly classify: a narrower set than
/// those outside OWL 2 EL, since property characteristics and assertions are ignored by completion.
pub open spec fn blocks_el_classification(c: OwlConstruct) -> bool {
    match c {
        OwlConstruct::ObjectAllValuesFrom |
        OwlConstruct::ObjectComplementOf |
        OwlConstruct::ObjectUnionOf |
        OwlConstruct::ObjectOneOf |
        OwlConstruct::ObjectCardinality |
        OwlConstruct::ObjectHasValue |
        OwlConstruct::ObjectHasSelf |
        OwlConstruct::SubObjectPropertyChain |
        OwlConstruct::DisjointUnion |
        OwlConstruct::HasKey |
        OwlConstruct::SwrlRule => true,
        _ => false,
    }
}

/// Constructs that fall outside OWL 2 QL.
pub open spec fn outside_ql(c: OwlConstruct) -> bool {
    match c {
        OwlConstruct::ObjectComplementOf |
        OwlConstruct::ObjectUnionOf |
        OwlConstruct::ObjectOneOf |
        OwlConstruct::ObjectCardinality |
        OwlConstruct::ObjectHasValue |
        OwlConstruct::ObjectHasSelf |
        OwlConstruct::SubClassOfExistential |
        OwlConstruct::SubClassOfIntersection |
        OwlConstruct::ObjectSomeValuesFrom |
        OwlConstruct::ObjectIntersectionOf |
        OwlConstruct::SubObjectPropertyChain |
        OwlConstruct::DisjointUnion |
        OwlConstruct::HasKey |
        OwlConstruct::IndividualEquality |
        OwlConstruct::ClassAssertion |
        OwlConstruct::ObjectPropertyAssertion |
        OwlConstruct::DataPropertyAssertion |
        OwlConstruct::SwrlRule |
        OwlConstruct::InverseObjectProperties |
        OwlConstruct::EquivalentObjectProperties |
        OwlConstruct::SymmetricObjectProperty |
        OwlConstruct::AsymmetricObjectProperty |
        OwlConstruct::ReflexiveObjectProperty |
        OwlConstruct::IrreflexiveObjectProperty |
        OwlConstruct::FunctionalObjectProperty |
        OwlConstruct::InverseFunctionalObjectProperty |
        OwlConstruct::TransitiveObjectProperty => true,
        _ => false,
    }
}

/// Constructs that fall outside OWL 2 RL.
pub open spec fn outside_rl(c: OwlConstruct) -> bool {
    match c {
        OwlConstruct::ObjectComplementOf |
        OwlConstruct::ObjectOneOf |
        OwlConstruct::ObjectHasValue |
        OwlConstruct::ObjectHasSelf |
        OwlConstruct::ObjectCardinality |
        OwlConstruct::DisjointUnion |
        OwlConstruct::HasKey |
        OwlConstruct::DataPropertyAssertion |
        OwlConstruct::SwrlRule |
        OwlConstruct::ObjectAllValuesFrom |
        OwlConstruct::ObjectUnionOf |
        OwlConstruct::SubClassOfExistential |
        OwlConstruct::ObjectSomeValuesFrom |
        OwlConstruct::SubClassOfIntersection |
        OwlConstruct::ObjectIntersectionOf => true,
        _ => false,
    }
}

/// Constructs whose presence marks an ontology as EL rather than RL when it fits both.
pub open spec fn el_marker(c: OwlConstruct) -> bool {
    match c {
        OwlConstruct::SubClassOfExistential |
        OwlConstruct::ObjectSomeValuesFrom |
        OwlConstruct::SubClassOfIntersection |
        OwlConstruct::ObjectIntersectionOf => true,
        _ => false,
    }
}

/// Constructs whose presence marks an ontology as RL when it fits EL and RL and has no EL marker.
pub open spec fn rl_marker(c: OwlConstruct) -> bool {
    match c {
        OwlConstruct::SymmetricObjectProperty |
        OwlConstruct::ReflexiveObjectProperty |
        OwlConstruct::TransitiveObjectProperty |
        OwlConstruct::AsymmetricObjectProperty |
        OwlConstruct::IrreflexiveObjectProperty => true,
        _ => false,
    }
}

fn is_outside_el(c: OwlConstruct) -> (r: bool)
    ensures
        r == outside_el(c),
{
    match c {
        OwlConstruct::ObjectAllValuesFrom |
        OwlConstruct::ObjectComplementOf |
        OwlConstruct::ObjectUnionOf |
        OwlConstruct::ObjectOneOf |
        OwlConstruct::ObjectCardinality |
        OwlConstruct::ObjectHasValue |
        OwlConstruct::ObjectHasSelf |
        OwlConstruct::SubObjectPropertyChain |
        OwlConstruct::DisjointUnion |
        OwlConstruct::HasKey |
        OwlConstruct::IndividualEquality |
        OwlConstruct::ClassAssertion |
        OwlConstruct::ObjectPropertyAssertion |
        OwlConstruct::DataPropertyAssertion |
        OwlConstruct::SwrlRule |
        OwlConstruct::InverseObjectProperties |
        OwlConstruct::FunctionalObjectProperty |
        OwlConstruct::InverseFunctionalObjectProperty |
        OwlConstruct::SymmetricObjectProperty |
        OwlConstruct::ReflexiveObjectProperty |
        OwlConstruct::AsymmetricObjectProperty |
        OwlConstruct::IrreflexiveObjectProperty |
        OwlConstruct::DisjointObjectProperties |
        OwlConstruct::EquivalentObjectProperties => true,
        _ => false,
    }
}

fn is_el_classification_blocker(c: OwlConstruct) -> (r: bool)
    ensures
        r == blocks_el_classification(c),
{
    match c {
        OwlConstruct::ObjectAllValuesFrom |
        OwlConstruct::ObjectComplementOf |
        OwlConstruct::ObjectUnionOf |
        OwlConstruct::ObjectOneOf |
        OwlConstruct::ObjectCardinality |
        OwlConstruct::ObjectHasValue |
        OwlConstruct::ObjectHasSelf |
        OwlConstruct::SubObjectPropertyChain |
        OwlConstruct::DisjointUnion |
        OwlConstruct::HasKey |
        OwlConstruct::SwrlRule => true,
        _ => false,
    }
}

fn is_outside_ql(c: OwlConstruct) -> (r: bool)
    ensures
        r == outside_ql(c),
{
    match c {
        OwlConstruct::ObjectComplementOf |
        OwlConstruct::ObjectUnionOf |
        OwlConstruct::ObjectOneOf |
        OwlConstruct::ObjectCardinality |
        OwlConstruct::ObjectHasValue |
        OwlConstruct::ObjectHasSelf |
        OwlConstruct::SubClassOfExistential |
        OwlConstruct::SubClassOfIntersection |
        OwlConstruct::ObjectSomeValuesFrom |
        OwlConstruct::ObjectIntersectionOf |
        OwlConstruct::SubObjectPropertyChain |
        OwlConstruct::DisjointUnion |
        OwlConstruct::HasKey |
        OwlConstruct::IndividualEquality |
        OwlConstruct::ClassAssertion |
        OwlConstruct::ObjectPropertyAssertion |
        OwlConstruct::DataPropertyAssertion |
        OwlConstruct::SwrlRule |
        OwlConstruct::InverseObjectProperties |
        OwlConstruct::EquivalentObjectProperties |
        OwlConstruct::SymmetricObjectProperty |
        OwlConstruct::AsymmetricObjectProperty |
        OwlConstruct::ReflexiveObjectProperty |
        OwlConstruct::IrreflexiveObjectProperty |
        OwlConstruct::FunctionalObjectProperty |
        OwlConstruct::InverseFunctionalObjectProperty |
        OwlConstruct::TransitiveObjectProperty => true,
        _ => false,
    }
}

fn is_outside_rl(c: OwlConstruct) -> (r: bool)
    ensures
        r == outside_rl(c),
{
    match c {
        OwlConstruct::ObjectComplementOf |
        OwlConstruct::ObjectOneOf |
        OwlConstruct::ObjectHasValue |
        OwlConstruct::ObjectHasSelf |
        OwlConstruct::ObjectCardinality |
        OwlConstruct::DisjointUnion |
        OwlConstruct::HasKey |
        OwlConstruct::DataPropertyAssertion |
        OwlConstruct::SwrlRule |
        OwlConstruct::ObjectAllValuesFrom |
        OwlConstruct::ObjectUnionOf |
        OwlConstruct::SubClassOfExistential |
        OwlConstruct::ObjectSomeValuesFrom |
        OwlConstruct::SubClassOfIntersection |
        OwlConstruct::ObjectIntersectionOf => true,
        _ => false,
    }
}

fn is_el_marker(c: OwlConstruct) -> (r: bool)
    ensures
        r == el_marker(c),
{
    match c {
        OwlConstruct::SubClassOfExistential |
        OwlConstruct::ObjectSomeValuesFrom |
        OwlConstruct::SubClassOfIntersection |
        OwlConstruct::ObjectIntersectionOf => true,
        _ => false,
    }
}

fn is_rl_marker(c: OwlConstruct) -> (r: bool)
    ensures
        r == rl_marker(c),
{
    match c {
        OwlConstruct::SymmetricObjectProperty |
        OwlConstruct::ReflexiveObjectProperty |
        OwlConstruct::TransitiveObjectProperty |
        OwlConstruct::AsymmetricObjectProperty |
        OwlConstruct::IrreflexiveObjectProperty => true,
        _ => false,
    }
}

/// The constructs each profile rules out, in the order the profile's rule lists them.
pub open spec fn forbidden_list(profile: OwlProfile) -> Seq<OwlConstruct> {
    match profile {
        OwlProfile::Ql => seq![
        OwlConstruct::ObjectComplementOf,
        OwlConstruct::ObjectUnionOf,
        OwlConstruct::ObjectOneOf,
        OwlConstruct::ObjectCardinality,
        OwlConstruct::ObjectHasValue,
        OwlConstruct::ObjectHasSelf,
        OwlConstruct::SubClassOfExistential,
        OwlConstruct::SubClassOfIntersection,
        OwlConstruct::ObjectSomeValuesFrom,
        OwlConstruct::ObjectIntersectionOf,
        OwlConstruct::SubObjectPropertyChain,
        OwlConstruct::DisjointUnion,
        OwlConstruct::HasKey,
        OwlConstruct::IndividualEquality,
        OwlConstruct::ClassAssertion,
        OwlConstruct::ObjectPropertyAssertion,
        OwlConstruct::DataPropertyAssertion,
        OwlConstruct::SwrlRule,
        OwlConstruct::InverseObjectProperties,
        OwlConstruct::EquivalentObjectProperties,
        OwlConstruct::SymmetricObjectProperty,
        OwlConstruct::AsymmetricObjectProperty,
        OwlConstruct::ReflexiveObjectProperty,
        OwlConstruct::IrreflexiveObjectProperty,
        OwlConstruct::FunctionalObjectProperty,
        OwlConstruct::InverseFunctionalObjectProperty,
        OwlConstruct::TransitiveObjectProperty,
    ],
        OwlProfile::El => seq![
        OwlConstruct::ObjectAllValuesFrom,
        OwlConstruct::ObjectComplementOf,
        OwlConstruct::ObjectUnionOf,
        OwlConstruct::ObjectOneOf,
        OwlConstruct::ObjectCardinality,
        OwlConstruct::ObjectHasValue,
        OwlConstruct::ObjectHasSelf,
        OwlConstruct::SubObjectPropertyChain,
        OwlConstruct::DisjointUnion,
        OwlConstruct::HasKey,
        OwlConstruct::IndividualEquality,
        OwlConstruct::ClassAssertion,
        OwlConstruct::ObjectPropertyAssertion,
        OwlConstruct::DataPropertyAssertion,
        OwlConstruct::SwrlRule,
        OwlConstruct::InverseObjectProperties,
        OwlConstruct::FunctionalObjectProperty,
        OwlConstruct::InverseFunctionalObjectProperty,
        OwlConstruct::SymmetricObjectProperty,
        OwlConstruct::ReflexiveObjectProperty,
        OwlConstruct::AsymmetricObjectProperty,
        OwlConstruct::IrreflexiveObjectProperty,
        OwlConstruct::DisjointObjectProperties,
        OwlConstruct::EquivalentObjectProperties,
    ],
        OwlProfile::Rl => seq![
        OwlConstruct::ObjectComplementOf,
        OwlConstruct::ObjectOneOf,
        OwlConstruct::ObjectHasValue,
        OwlConstruct::ObjectHasSelf,
        OwlConstruct::ObjectCardinality,
        OwlConstruct::DisjointUnion,
        OwlConstruct::HasKey,
        OwlConstruct::DataPropertyAssertion,
        OwlConstruct::SwrlRule,
        OwlConstruct::ObjectAllValuesFrom,
        OwlConstruct::ObjectUnionOf,
        OwlConstruct::SubClassOfExistential,
        OwlConstruct::ObjectSomeValuesFrom,
        OwlConstruct::SubClassOfIntersection,
        OwlConstruct::ObjectIntersectionOf,
    ],
        OwlProfile::Dl => Seq::empty(),
    }
}

/// Forbidden constructs for the given detected profile.
pub fn forbidden_for_profile(profile: OwlProfile) -> (r: Vec<OwlConstruct>)
    ensures
        r@ == forbidden_list(profile),
{
    let mut v: Vec<OwlConstruct> = Vec::new();
    match profile {
        OwlProfile::Ql => {
            v.push(OwlConstruct::ObjectComplementOf);
            v.push(OwlConstruct::ObjectUnionOf);
            v.push(OwlConstruct::ObjectOneOf);
            v.push(OwlConstruct::ObjectCardinality);
            v.push(OwlConstruct::ObjectHasValue);
            v.push(OwlConstruct::ObjectHasSelf);
            v.push(OwlConstruct::SubClassOfExistential);
            v.push(OwlConstruct::SubClassOfIntersection);
            v.push(OwlConstruct::ObjectSomeValuesFrom);
            v.push(OwlConstruct::ObjectIntersectionOf);
            v.push(OwlConstruct::SubObjectPropertyChain);
            v.push(OwlConstruct::DisjointUnion);
            v.push(OwlConstruct::HasKey);
            v.push(OwlConstruct::IndividualEquality);
            v.push(OwlConstruct::ClassAssertion);
            v.push(OwlConstruct::ObjectPropertyAssertion);
            v.push(OwlConstruct::DataPropertyAssertion);
            v.push(OwlConstruct::SwrlRule);
            v.push(OwlConstruct::InverseObjectProperties);
            v.push(OwlConstruct::EquivalentObjectProperties);
            v.push(OwlConstruct::SymmetricObjectProperty);
            v.push(OwlConstruct::AsymmetricObjectProperty);
            v.push(OwlConstruct::ReflexiveObjectProperty);
            v.push(OwlConstruct::IrreflexiveObjectProperty);
            v.push(OwlConstruct::FunctionalObjectProperty);
            v.push(OwlConstruct::InverseFunctionalObjectProperty);
            v.push(OwlConstruct::TransitiveObjectProperty);
        },
        OwlProfile::El => {
            v.push(OwlConstruct::ObjectAllValuesFrom);
            v.push(OwlConstruct::ObjectComplementOf);
            v.push(OwlConstruct::ObjectUnionOf);
            v.push(OwlConstruct::ObjectOneOf);
            v.push(OwlConstruct::ObjectCardinality);
            v.push(OwlConstruct::ObjectHasValue);
            v.push(OwlConstruct::ObjectHasSelf);
            v.push(OwlConstruct::SubObjectPropertyChain);
            v.push(OwlConstruct::DisjointUnion);
            v.push(OwlConstruct::HasKey);
            v.push(OwlConstruct::IndividualEquality);
            v.push(OwlConstruct::ClassAssertion);
            v.push(OwlConstruct::ObjectPropertyAssertion);
            v.push(OwlConstruct::DataPropertyAssertion);
            v.push(OwlConstruct::SwrlRule);
            v.push(OwlConstruct::InverseObjectProperties);
            v.push(OwlConstruct::FunctionalObjectProperty);
            v.push(OwlConstruct::InverseFunctionalObjectProperty);
            v.push(OwlConstruct::SymmetricObjectProperty);
            v.push(OwlConstruct::ReflexiveObjectProperty);
            v.push(OwlConstruct::AsymmetricObjectProperty);
            v.push(OwlConstruct::IrreflexiveObjectProperty);
            v.push(OwlConstruct::DisjointObjectProperties);
            v.push(OwlConstruct::EquivalentObjectProperties);
        },
        OwlProfile::Rl => {
            v.push(OwlConstruct::ObjectComplementOf);
            v.push(OwlConstruct::ObjectOneOf);
            v.push(OwlConstruct::ObjectHasValue);
            v.push(OwlConstruct::ObjectHasSelf);
            v.push(OwlConstruct::ObjectCardinality);
            v.push(OwlConstruct::DisjointUnion);
            v.push(OwlConstruct::HasKey);
            v.push(OwlConstruct::DataPropertyAssertion);
            v.push(OwlConstruct::SwrlRule);
            v.push(OwlConstruct::ObjectAllValuesFrom);
            v.push(OwlConstruct::ObjectUnionOf);
            v.push(OwlConstruct::SubClassOfExistential);
            v.push(OwlConstruct::ObjectSomeValuesFrom);
            v.push(OwlConstruct::SubClassOfIntersection);
            v.push(OwlConstruct::ObjectIntersectionOf);
        },
        OwlProfile::Dl => {},
    }
    v
}

/// Constructs that no profile below OWL 2 DL can reason with.
pub open spec fn needs_dl(c: OwlConstruct) -> bool {
    match c {
        OwlConstruct::Unknown | OwlConstruct::SwrlRule => true,
        _ => false,
    }
}

/// Constructs that affect neither profile classification nor source diagnostics.
pub open spec fn neutral(c: OwlConstruct) -> bool {
    match c {
        OwlConstruct::Annotation | OwlConstruct::Import | OwlConstruct::Unknown => true,
        _ => false,
    }
}

/// Whether `c` lies outside `profile`; nothing lies outside OWL 2 DL.
pub open spec fn outside_profile(profile: OwlProfile, c: OwlConstruct) -> bool {
    match profile {
        OwlProfile::El => outside_el(c),
        OwlProfile::Rl => outside_rl(c),
        OwlProfile::Ql => outside_ql(c),
        OwlProfile::Dl => false,
    }
}

/// Every construct of `cs` is allowed in `profile`.
pub open spec fn within_profile(profile: OwlProfile, cs: Seq<OwlConstruct>) -> bool {
    forall|i: int| 0 <= i < cs.len() ==> !outside_profile(profile, #[trigger] cs[i])
}

/// A selection of constructs that the profile rules pick out of a construct set.
#[derive(Debug, Clone, Copy, PartialEq, Eq, Structural)]
pub enum ConstructRule {
    /// Constructs outside the given profile.
    OutsideProfile(OwlProfile),
    /// Constructs that block EL classification.
    BlocksElClassification,
    /// Constructs that need OWL 2 DL reasoning.
    NeedsDl,
}

/// Whether `rule` picks `c`.
pub open spec fn rule_picks(rule: ConstructRule, c: OwlConstruct) -> bool {
    match rule {
        ConstructRule::OutsideProfile(p) => outside_profile(p, c),
        ConstructRule::BlocksElClassification => blocks_el_classification(c),
        ConstructRule::NeedsDl => needs_dl(c),
    }
}

/// The constructs of `cs` that `rule` picks, in the order of `cs`.
pub open spec fn picked(rule: ConstructRule, cs: Seq<OwlConstruct>) -> Seq<OwlConstruct> {
    cs.filter(|c: OwlConstruct| rule_picks(rule, c))
}

/// `ds` reports each construct of `cs`, in order, with `message`.
pub open spec fn diagnostics_of(
    ds: Seq<ProfileDiagnostic>,
    cs: Seq<OwlConstruct>,
    message: Seq<char>,
) -> bool {
    &&& ds.len() == cs.len()
    &&& forall|i: int|
        0 <= i < ds.len() ==> {
            &&& (#[trigger] ds[i]).construct@ == construct_name(cs[i])
            &&& ds[i].message@ == message
        }
}

fn is_outside_profile(profile: OwlProfile, c: OwlConstruct) -> (r: bool)
    ensures
        r == outside_profile(profile, c),
{
    match profile {
        OwlProfile::El => is_outside_el(c),
        OwlProfile::Rl => is_outside_rl(c),
        OwlProfile::Ql => is_outside_ql(c),
        OwlProfile::Dl => false,
    }
}

fn rule_picks_exec(rule: ConstructRule, c: OwlConstruct) -> (r: bool)
    ensures
        r == rule_picks(rule, c),
{
    match rule {
        ConstructRule::OutsideProfile(p) => is_outside_profile(p, c),
        ConstructRule::BlocksElClassification => is_el_classification_blocker(c),
        ConstructRule::NeedsDl => match c {
            OwlConstruct::Unknown | OwlConstruct::SwrlRule => true,
            _ => false,
        },
    }
}

proof fn lemma_picked_step(rule: ConstructRule, cs: Seq<OwlConstruct>, i: int)
    requires
        0 <= i < cs.len(),
    ensures
        picked(rule, cs.take(i + 1)) == if rule_picks(rule, cs[i]) {
            picked(rule, cs.take(i)).push(cs[i])
        } else {
            picked(rule, cs.take(i))
        },
{
    assert(cs.take(i + 1) =~= cs.take(i).push(cs[i]));
    cs.take(i).lemma_filter_push(cs[i], |c: OwlConstruct| rule_picks(rule, c));
}

fn profile_allows_all(profile: OwlProfile, constructs: &Vec<OwlConstruct>) -> (r: bool)
    ensures
        r == within_profile(profile, constructs@),
{
    let mut i: usize = 0;
    while i < constructs.len()
        invariant
            0 <= i <= constructs.len(),
            forall|j: int| 0 <= j < i ==> !outside_profile(profile, #[trigger] constructs@[j]),
        decreases constructs.len() - i,
    {
        if is_outside_profile(profile, constructs[i]) {
            return false;
        }
        i += 1;
    }
    true
}

/// The members of a set of constructs, each once, in the set's order: what profile detection
/// reads.
pub open spec fn is_construct_set(s: Seq<OwlConstruct>) -> bool {
    s.no_duplicates()
}

/// The set of the constructs in `items`: each once, where it first occurs.
pub fn construct_set(items: &Vec<OwlConstruct>) -> (r: Vec<OwlConstruct>)
    ensures
        is_construct_set(r@),
        forall|c: OwlConstruct| r@.contains(c) <==> items@.contains(c),
{
    let mut out: Vec<OwlConstruct> = Vec::new();
    let mut i: usize = 0;
    while i < items.len()
        invariant
            i <= items.len(),
            out@.no_duplicates(),
            forall|c: OwlConstruct| out@.contains(c) <==> items@.take(i as int).contains(c),
        decreases items.len() - i,
    {
        let c = items[i];
        let ghost before = out@;
        let ghost seen = items@.take(i as int);
        assert(items@.take(i + 1) =~= seen.push(c));
        if !has_construct(&out, c) {
            out.push(c);
            assert(out@ == before.push(c));
            assert forall|d: OwlConstruct| out@.contains(d) <==> items@.take(i + 1).contains(d) by {
                vstd::seq_lib::lemma_seq_contains_after_push(before, c, d);
                vstd::seq_lib::lemma_seq_contains_after_push(seen, c, d);
            }
        } else {
            assert forall|d: OwlConstruct| out@.contains(d) <==> items@.take(i + 1).contains(d) by {
                vstd::seq_lib::lemma_seq_contains_after_push(seen, c, d);
            }
        }
        i += 1;
    }
    assert(items@.take(items.len() as int) =~= items@);
    out
}

/// Returns true when every construct in `constructs` is allowed in OWL 2 EL.
pub fn satisfies_el(constructs: &Vec<OwlConstruct>) -> (r: bool)
    ensures
        r == within_profile(OwlProfile::El, constructs@),
{
    profile_allows_all(OwlProfile::El, constructs)
}

/// Returns true when every construct in `constructs` is allowed in OWL 2 QL.
pub fn satisfies_ql(constructs: &Vec<OwlConstruct>) -> (r: bool)
    ensures
        r == within_profile(OwlProfile::Ql, constructs@),
{
    profile_allows_all(OwlProfile::Ql, constructs)
}

/// Returns true when every construct in `constructs` is allowed in OWL 2 RL.
pub fn satisfies_rl(constructs: &Vec<OwlConstruct>) -> (r: bool)
    ensures
        r == within_profile(OwlProfile::Rl, constructs@),
{
    profile_allows_all(OwlProfile::Rl, constructs)
}

fn select_where(rule: ConstructRule, constructs: &Vec<OwlConstruct>) -> (r: Vec<OwlConstruct>)
    ensures
        r@ == picked(rule, constructs@),
{
    let mut out: Vec<OwlConstruct> = Vec::new();
    let mut i: usize = 0;
    while i < constructs.len()
        invariant
            0 <= i <= constructs.len(),
            out@ == picked(rule, constructs@.take(i as int)),
        decreases constructs.len() - i,
    {
        proof {
            lemma_picked_step(rule, constructs@, i as int);
        }
        if rule_picks_exec(rule, constructs[i]) {
            out.push(constructs[i]);
        }
        i += 1;
    }
    assert(constructs@.take(constructs.len() as int) =~= constructs@);
    out
}

/// Constructs present in `constructs` that fall outside OWL 2 EL.
pub fn el_forbidden_in(constructs: &Vec<OwlConstruct>) -> (r: Vec<OwlConstruct>)
    ensures
        r@ == picked(ConstructRule::OutsideProfile(OwlProfile::El), constructs@),
{
    select_where(ConstructRule::OutsideProfile(OwlProfile::El), constructs)
}

/// Constructs that block in-house EL classification when present in mapped axioms.
pub fn el_classification_forbidden_in(constructs: &Vec<OwlConstruct>) -> (r: Vec<OwlConstruct>)
    ensures
        r@ == picked(ConstructRule::BlocksElClassification, constructs@),
{
    select_where(ConstructRule::BlocksElClassification, constructs)
}

fn diagnostics_for(picked_constructs: &Vec<OwlConstruct>, message: &str) -> (r: Vec<ProfileDiagnostic>)
    ensures
        diagnostics_of(r@, picked_constructs@, message@),
{
    let mut out: Vec<ProfileDiagnostic> = Vec::new();
    let mut i: usize = 0;
    while i < picked_constructs.len()
        invariant
            0 <= i <= picked_constructs.len(),
            diagnostics_of(out@, picked_constructs@.take(i as int), message@),
        decreases picked_constructs.len() - i,
    {
        let c = picked_constructs[i];
        let d = ProfileDiagnostic {
            construct: String::from_str(c.name()),
            message: String::from_str(message),
        };
        out.push(d);
        i += 1;
        assert(diagnostics_of(out@, picked_constructs@.take(i as int), message@));
    }
    assert(picked_constructs@.take(picked_constructs.len() as int) =~= picked_constructs@);
    out
}

/// The message that reports a construct outside `profile`.
pub open spec fn outside_message(profile: OwlProfile) -> Seq<char> {
    match profile {
        OwlProfile::El => "construct is outside OWL 2 EL"@,
        OwlProfile::Rl => "construct is outside OWL 2 RL"@,
        OwlProfile::Ql => "construct is outside OWL 2 QL"@,
        OwlProfile::Dl => "construct is outside OWL 2 DL"@,
    }
}

/// Profile diagnostics for constructs outside OWL 2 EL.
pub fn el_diagnostics(constructs: &Vec<OwlConstruct>) -> (r: Vec<ProfileDiagnostic>)
    requires
        is_construct_set(constructs@),
    ensures
        diagnostics_of(
            r@,
            picked(ConstructRule::OutsideProfile(OwlProfile::El), constructs@),
            outside_message(OwlProfile::El),
        ),
{
    let outside = select_where(ConstructRule::OutsideProfile(OwlProfile::El), constructs);
    diagnostics_for(&outside, "construct is outside OWL 2 EL")
}

/// Profile diagnostics for constructs outside OWL 2 QL.
pub fn ql_diagnostics(constructs: &Vec<OwlConstruct>) -> (r: Vec<ProfileDiagnostic>)
    requires
        is_construct_set(constructs@),
    ensures
        diagnostics_of(
            r@,
            picked(ConstructRule::OutsideProfile(OwlProfile::Ql), constructs@),
            outside_message(OwlProfile::Ql),
        ),
{
    let outside = select_where(ConstructRule::OutsideProfile(OwlProfile::Ql), constructs);
    diagnostics_for(&outside, "construct is outside OWL 2 QL")
}

/// Profile diagnostics for constructs outside OWL 2 RL.
pub fn rl_diagnostics(constructs: &Vec<OwlConstruct>) -> (r: Vec<ProfileDiagnostic>)
    requires
        is_construct_set(constructs@),
    ensures
        diagnostics_of(
            r@,
            picked(ConstructRule::OutsideProfile(OwlProfile::Rl), constructs@),
            outside_message(OwlProfile::Rl),
        ),
{
    let outside = select_where(ConstructRule::OutsideProfile(OwlProfile::Rl), constructs);
    diagnostics_for(&outside, "construct is outside OWL 2 RL")
}


/// Why a construct is reported for an ontology classified as OWL 2 DL.
#[derive(Debug, Clone, Copy, PartialEq, Eq, Structural)]
pub enum DlReason {
    /// A mapped axiom rules out OWL 2 EL.
    RulesOutEl,
    /// A mapped axiom rules out OWL 2 RL.
    RulesOutRl,
    /// The construct requires OWL 2 DL reasoning.
    NeedsDl,
}

/// The message reported for a construct under `reason`.
pub open spec fn dl_message(reason: DlReason) -> Seq<char> {
    match reason {
        DlReason::RulesOutEl => "construct is outside OWL 2 EL (mapped axiom rules out OWL 2 EL)"@,
        DlReason::RulesOutRl => "construct is outside OWL 2 RL (mapped axiom rules out OWL 2 RL)"@,
        DlReason::NeedsDl => "construct requires OWL 2 DL reasoning"@,
    }
}

fn dl_message_exec(reason: DlReason) -> (r: &'static str)
    ensures
        r@ == dl_message(reason),
{
    match reason {
        DlReason::RulesOutEl => "construct is outside OWL 2 EL (mapped axiom rules out OWL 2 EL)",
        DlReason::RulesOutRl => "construct is outside OWL 2 RL (mapped axiom rules out OWL 2 RL)",
        DlReason::NeedsDl => "construct requires OWL 2 DL reasoning",
    }
}

/// Each construct of `cs` paired with `reason`.
pub open spec fn tagged(cs: Seq<OwlConstruct>, reason: DlReason) -> Seq<(OwlConstruct, DlReason)> {
    cs.map_values(|c: OwlConstruct| (c, reason))
}

/// The candidate reports for an OWL 2 DL ontology, in order: the constructs that rule out EL
/// (when EL is ruled out), those that rule out RL (when RL is ruled out), and those that need DL.
pub open spec fn dl_candidates(cs: Seq<OwlConstruct>) -> Seq<(OwlConstruct, DlReason)> {
    let el_part = if within_profile(OwlProfile::El, cs) {
        Seq::empty()
    } else {
        tagged(picked(ConstructRule::OutsideProfile(OwlProfile::El), cs), DlReason::RulesOutEl)
    };
    let rl_part = if within_profile(OwlProfile::Rl, cs) {
        Seq::empty()
    } else {
        tagged(picked(ConstructRule::OutsideProfile(OwlProfile::Rl), cs), DlReason::RulesOutRl)
    };
    el_part + rl_part + tagged(picked(ConstructRule::NeedsDl, cs), DlReason::NeedsDl)
}

/// Whether some entry of `s` before position `end` reports construct `c`.
pub open spec fn reported_before(s: Seq<(OwlConstruct, DlReason)>, end: int, c: OwlConstruct) -> bool {
    exists|j: int| 0 <= j < end && (#[trigger] s[j]).0 == c
}

/// The entries of `s` whose construct no earlier entry reports.
pub open spec fn first_per_construct(s: Seq<(OwlConstruct, DlReason)>) -> Seq<(OwlConstruct, DlReason)>
    decreases s.len(),
{
    if s.len() == 0 {
        Seq::empty()
    } else {
        let kept = first_per_construct(s.drop_last());
        if reported_before(s, s.len() - 1, s.last().0) {
            kept
        } else {
            kept.push(s.last())
        }
    }
}

/// `ds` reports each entry of `s`, in order, with its construct and the message of its reason.
pub open spec fn dl_diagnostics_of(ds: Seq<ProfileDiagnostic>, s: Seq<(OwlConstruct, DlReason)>) -> bool {
    &&& ds.len() == s.len()
    &&& forall|i: int|
        0 <= i < ds.len() ==> {
            &&& (#[trigger] ds[i]).construct@ == construct_name(s[i].0)
            &&& ds[i].message@ == dl_message(s[i].1)
        }
}

fn push_tagged(out: &mut Vec<(OwlConstruct, DlReason)>, cs: &Vec<OwlConstruct>, reason: DlReason)
    ensures
        final(out)@ == old(out)@ + tagged(cs@, reason),
{
    let ghost start = out@;
    let mut i: usize = 0;
    while i < cs.len()
        invariant
            0 <= i <= cs.len(),
            out@ == start + tagged(cs@.take(i as int), reason),
        decreases cs.len() - i,
    {
        out.push((cs[i], reason));
        assert(tagged(cs@.take(i + 1), reason) =~= tagged(cs@.take(i as int), reason).push(
            (cs@[i as int], reason),
        ));
        i += 1;
    }
    assert(cs@.take(cs.len() as int) =~= cs@);
}

fn has_construct(seen: &Vec<OwlConstruct>, c: OwlConstruct) -> (r: bool)
    ensures
        r == seen@.contains(c),
{
    let mut i: usize = 0;
    while i < seen.len()
        invariant
            0 <= i <= seen.len(),
            forall|j: int| 0 <= j < i ==> seen@[j] != c,
        decreases seen.len() - i,
    {
        if seen[i] == c {
            assert(seen@[i as int] == c);
            return true;
        }
        i += 1;
    }
    false
}

fn report_first_per_construct(cands: &Vec<(OwlConstruct, DlReason)>) -> (r: Vec<ProfileDiagnostic>)
    ensures
        dl_diagnostics_of(r@, first_per_construct(cands@)),
{
    let mut out: Vec<ProfileDiagnostic> = Vec::new();
    let mut seen: Vec<OwlConstruct> = Vec::new();
    let mut i: usize = 0;
    while i < cands.len()
        invariant
            0 <= i <= cands.len(),
            forall|c: OwlConstruct| seen@.contains(c) <==> reported_before(cands@, i as int, c),
            dl_diagnostics_of(out@, first_per_construct(cands@.take(i as int))),
        decreases cands.len() - i,
    {
        let (c, reason) = cands[i];
        let ghost prefix = cands@.take(i + 1);
        assert(prefix.drop_last() =~= cands@.take(i as int));
        assert(reported_before(prefix, i as int, c) == reported_before(cands@, i as int, c)) by {
            if reported_before(cands@, i as int, c) {
                let j = choose|j: int| 0 <= j < i && (#[trigger] cands@[j]).0 == c;
                assert(prefix[j] == cands@[j]);
            }
            if reported_before(prefix, i as int, c) {
                let j = choose|j: int| 0 <= j < i && (#[trigger] prefix[j]).0 == c;
                assert(prefix[j] == cands@[j]);
            }
        }
        let ghost old_seen = seen@;
        if !has_construct(&seen, c) {
            seen.push(c);
            proof {
                vstd::seq_lib::lemma_seq_contains_after_push(old_seen, c, c);
                assert forall|d: OwlConstruct| #[trigger] seen@.contains(d) <==> (old_seen.contains(d) || d == c) by {
                    vstd::seq_lib::lemma_seq_contains_after_push(old_seen, c, d);
                }
            }
            out.push(ProfileDiagnostic {
                construct: String::from_str(c.name()),
                message: String::from_str(dl_message_exec(reason)),
            });
        }
        assert forall|d: OwlConstruct| seen@.contains(d) <==> reported_before(cands@, i + 1, d) by {
            if reported_before(cands@, i + 1, d) && d != c {
                let j = choose|j: int| 0 <= j < i + 1 && (#[trigger] cands@[j]).0 == d;
                assert(reported_before(cands@, i as int, d));
            }
            if d == c {
                assert(cands@[i as int].0 == c);
                assert(reported_before(cands@, i + 1, d));
            }
            if reported_before(cands@, i as int, d) {
                let j = choose|j: int| 0 <= j < i && (#[trigger] cands@[j]).0 == d;
                assert(0 <= j < i + 1 && cands@[j].0 == d);
            }
        }
        i += 1;
    }
    assert(cands@.take(cands.len() as int) =~= cands@);
    out
}

/// Diagnostics for an ontology classified as OWL 2 DL: what rules out EL, what rules out RL
/// and what needs DL reasoning, each construct reported once, under its first reason.
pub fn dl_diagnostics(constructs: &Vec<OwlConstruct>) -> (r: Vec<ProfileDiagnostic>)
    requires
        is_construct_set(constructs@),
    ensures
        dl_diagnostics_of(r@, first_per_construct(dl_candidates(constructs@))),
{
    let mut cands: Vec<(OwlConstruct, DlReason)> = Vec::new();
    if !satisfies_el(constructs) {
        let outside = select_where(ConstructRule::OutsideProfile(OwlProfile::El), constructs);
        push_tagged(&mut cands, &outside, DlReason::RulesOutEl);
    }
    if !satisfies_rl(constructs) {
        let outside = select_where(ConstructRule::OutsideProfile(OwlProfile::Rl), constructs);
        push_tagged(&mut cands, &outside, DlReason::RulesOutRl);
    }
    let needs = select_where(ConstructRule::NeedsDl, constructs);
    push_tagged(&mut cands, &needs, DlReason::NeedsDl);
    assert(cands@ =~= dl_candidates(constructs@));
    report_first_per_construct(&cands)
}


/// Some construct of `cs` marks an ontology as EL.
pub open spec fn has_el_marker(cs: Seq<OwlConstruct>) -> bool {
    exists|i: int| 0 <= i < cs.len() && el_marker(#[trigger] cs[i])
}

/// Some construct of `cs` marks an ontology as RL.
pub open spec fn has_rl_marker(cs: Seq<OwlConstruct>) -> bool {
    exists|i: int| 0 <= i < cs.len() && rl_marker(#[trigger] cs[i])
}

/// The most specific profile that admits every construct of `cs`: QL first; then, where both EL
/// and RL admit them, EL unless only RL markers are present; then EL, then RL; else DL.
pub open spec fn detected_profile(cs: Seq<OwlConstruct>) -> OwlProfile {
    if within_profile(OwlProfile::Ql, cs) {
        OwlProfile::Ql
    } else if within_profile(OwlProfile::El, cs) && within_profile(OwlProfile::Rl, cs) {
        if has_el_marker(cs) {
            OwlProfile::El
        } else if has_rl_marker(cs) {
            OwlProfile::Rl
        } else {
            OwlProfile::El
        }
    } else if within_profile(OwlProfile::El, cs) {
        OwlProfile::El
    } else if within_profile(OwlProfile::Rl, cs) {
        OwlProfile::Rl
    } else {
        OwlProfile::Dl
    }
}

/// `ds` are the diagnostics reported for `cs` under the detected `profile`: the constructs outside
/// that profile, or for DL the constructs that rule out EL and RL and those that need DL.
pub open spec fn report_diagnostics_of(
    profile: OwlProfile,
    ds: Seq<ProfileDiagnostic>,
    cs: Seq<OwlConstruct>,
) -> bool {
    match profile {
        OwlProfile::Dl => dl_diagnostics_of(ds, first_per_construct(dl_candidates(cs))),
        _ => diagnostics_of(ds, picked(ConstructRule::OutsideProfile(profile), cs), outside_message(profile)),
    }
}

fn has_marker(constructs: &Vec<OwlConstruct>, el: bool) -> (r: bool)
    ensures
        r == if el { has_el_marker(constructs@) } else { has_rl_marker(constructs@) },
{
    let mut i: usize = 0;
    while i < constructs.len()
        invariant
            0 <= i <= constructs.len(),
            forall|j: int|
                0 <= j < i ==> !(if el { el_marker(#[trigger] constructs@[j]) } else { rl_marker(constructs@[j]) }),
        decreases constructs.len() - i,
    {
        let c = constructs[i];
        let hit = if el { is_el_marker(c) } else { is_rl_marker(c) };
        if hit {
            return true;
        }
        i += 1;
    }
    false
}

/// Detect the most specific OWL profile admitting the mapped constructs, with the diagnostics of
/// the constructs outside it.
pub fn detect_profile_for_constructs(constructs: &Vec<OwlConstruct>) -> (r: ProfileReport)
    requires
        is_construct_set(constructs@),
    ensures
        r.detected == Some(detected_profile(constructs@)),
        report_diagnostics_of(detected_profile(constructs@), r.diagnostics@, constructs@),
{
    if satisfies_ql(constructs) {
        return ProfileReport { detected: Some(OwlProfile::Ql), diagnostics: ql_diagnostics(constructs) };
    }
    let el_ok = satisfies_el(constructs);
    let rl_ok = satisfies_rl(constructs);
    if el_ok && rl_ok {
        let detected = if has_marker(constructs, true) {
            OwlProfile::El
        } else if has_marker(constructs, false) {
            OwlProfile::Rl
        } else {
            OwlProfile::El
        };
        let diagnostics = match detected {
            OwlProfile::El => el_diagnostics(constructs),
            _ => rl_diagnostics(constructs),
        };
        return ProfileReport { detected: Some(detected), diagnostics };
    }
    if el_ok {
        return ProfileReport { detected: Some(OwlProfile::El), diagnostics: el_diagnostics(constructs) };
    }
    if rl_ok {
        return ProfileReport { detected: Some(OwlProfile::Rl), diagnostics: rl_diagnostics(constructs) };
    }
    ProfileReport { detected: Some(OwlProfile::Dl), diagnostics: dl_diagnostics(constructs) }
}

/// The constructs of `source`, in order, that the mapped constructs miss, that are not neutral,
/// and that lie outside the `detected` profile.
pub open spec fn source_only(
    detected: OwlProfile,
    source: Seq<OwlConstruct>,
    mapped: Seq<OwlConstruct>,
) -> Seq<OwlConstruct> {
    source.filter(|c: OwlConstruct| !mapped.contains(c) && !neutral(c) && outside_profile(detected, c))
}

/// The message that reports a construct seen only in the source.
pub open spec fn source_only_message(detected: OwlProfile) -> Seq<char> {
    match detected {
        OwlProfile::El => "construct observed in source but outside detected El profile (not mapped to core)"@,
        OwlProfile::Rl => "construct observed in source but outside detected Rl profile (not mapped to core)"@,
        OwlProfile::Ql => "construct observed in source but outside detected Ql profile (not mapped to core)"@,
        OwlProfile::Dl => "construct observed in source but outside detected Dl profile (not mapped to core)"@,
    }
}

fn source_only_message_exec(detected: OwlProfile) -> (r: &'static str)
    ensures
        r@ == source_only_message(detected),
{
    match detected {
        OwlProfile::El => "construct observed in source but outside detected El profile (not mapped to core)",
        OwlProfile::Rl => "construct observed in source but outside detected Rl profile (not mapped to core)",
        OwlProfile::Ql => "construct observed in source but outside detected Ql profile (not mapped to core)",
        OwlProfile::Dl => "construct observed in source but outside detected Dl profile (not mapped to core)",
    }
}

/// Diagnostics for constructs observed in the full parse but not reflected in mapped profile inputs.
pub fn source_only_diagnostics(
    detected: OwlProfile,
    source: &Vec<OwlConstruct>,
    mapped: &Vec<OwlConstruct>,
) -> (r: Vec<ProfileDiagnostic>)
    requires
        is_construct_set(source@),
        is_construct_set(mapped@),
    ensures
        diagnostics_of(r@, source_only(detected, source@, mapped@), source_only_message(detected)),
{
    let ghost pred = |c: OwlConstruct| !mapped@.contains(c) && !neutral(c) && outside_profile(detected, c);
    let mut chosen: Vec<OwlConstruct> = Vec::new();
    let mut i: usize = 0;
    while i < source.len()
        invariant
            0 <= i <= source.len(),
            pred == (|c: OwlConstruct| !mapped@.contains(c) && !neutral(c) && outside_profile(detected, c)),
            chosen@ == source@.take(i as int).filter(pred),
        decreases source.len() - i,
    {
        let c = source[i];
        proof {
            assert(source@.take(i + 1) =~= source@.take(i as int).push(c));
            source@.take(i as int).lemma_filter_push(c, pred);
        }
        let is_neutral = match c {
            OwlConstruct::Annotation | OwlConstruct::Import | OwlConstruct::Unknown => true,
            _ => false,
        };
        if !has_construct(mapped, c) && !is_neutral && is_outside_profile(detected, c) {
            chosen.push(c);
        }
        i += 1;
    }
    assert(source@.take(source.len() as int) =~= source@);
    diagnostics_for(&chosen, source_only_message_exec(detected))
}

/// Detect the profile of the mapped constructs, and report after its diagnostics the constructs
/// observed in the source alone that fall outside the detected profile.
pub fn detect_profile_with_source(
    mapped: &Vec<OwlConstruct>,
    source: &Vec<OwlConstruct>,
) -> (r: ProfileReport)
    requires
        is_construct_set(source@),
        is_construct_set(mapped@),
    ensures
        r.detected == Some(detected_profile(mapped@)),
        r.diagnostics@.len() >= source_only(detected_profile(mapped@), source@, mapped@).len(),
        report_diagnostics_of(
            detected_profile(mapped@),
            r.diagnostics@.take(
                r.diagnostics@.len() - source_only(detected_profile(mapped@), source@, mapped@).len(),
            ),
            mapped@,
        ),
        diagnostics_of(
            r.diagnostics@.skip(
                r.diagnostics@.len() - source_only(detected_profile(mapped@), source@, mapped@).len(),
            ),
            source_only(detected_profile(mapped@), source@, mapped@),
            source_only_message(detected_profile(mapped@)),
        ),
{
    let report = detect_profile_for_constructs(mapped);
    let detected = match report.detected {
        Some(p) => p,
        None => OwlProfile::Dl,
    };
    let mut diagnostics = report.diagnostics;
    let ghost first = diagnostics@;
    let mut extra = source_only_diagnostics(detected, source, mapped);
    let ghost second = extra@;
    diagnostics.append(&mut extra);
    assert(diagnostics@.take(first.len() as int) =~= first);
    assert(diagnostics@.skip(first.len() as int) =~= second);
    ProfileReport { detected: report.detected, diagnostics }
}


/// A rule picks nothing out of a construct set exactly when it picks none of its constructs.
pub proof fn lemma_nothing_picked_iff_none_picks(rule: ConstructRule, cs: Seq<OwlConstruct>)
    ensures
        picked(rule, cs).len() == 0 <==> forall|i: int| 0 <= i < cs.len() ==> !rule_picks(rule, #[trigger] cs[i]),
{
    let pred = |c: OwlConstruct| rule_picks(rule, c);
    let out = cs.filter(pred);
    if exists|i: int| 0 <= i < cs.len() && rule_picks(rule, #[trigger] cs[i]) {
        let i = choose|i: int| 0 <= i < cs.len() && rule_picks(rule, #[trigger] cs[i]);
        cs.lemma_filter_contains(pred, i);
    } else if out.len() > 0 {
        cs.lemma_filter_pred(pred, 0);
        assert(out.contains(out[0]));
        cs.lemma_filter_contains_rev(pred, out[0]);
        let j = choose|j: int| 0 <= j < cs.len() && cs[j] == out[0];
        assert(!rule_picks(rule, cs[j]));
    }
}

/// A profile admits a construct set exactly when it picks no construct of the set as outside it.
pub proof fn lemma_within_iff_nothing_outside(profile: OwlProfile, cs: Seq<OwlConstruct>)
    ensures
        within_profile(profile, cs) <==> picked(ConstructRule::OutsideProfile(profile), cs).len() == 0,
{
    lemma_nothing_picked_iff_none_picks(ConstructRule::OutsideProfile(profile), cs);
}

/// The detected profile admits every construct it was detected from, so a report below DL carries
/// no diagnostic; DL is detected only when neither QL, EL nor RL admits the constructs, and QL is
/// detected whenever it admits them.
pub proof fn lemma_detected_profile_admits_constructs(cs: Seq<OwlConstruct>)
    ensures
        detected_profile(cs) != OwlProfile::Dl ==> within_profile(detected_profile(cs), cs),
        detected_profile(cs) != OwlProfile::Dl
            ==> picked(ConstructRule::OutsideProfile(detected_profile(cs)), cs).len() == 0,
        detected_profile(cs) == OwlProfile::Dl <==> (!within_profile(OwlProfile::Ql, cs)
            && !within_profile(OwlProfile::El, cs) && !within_profile(OwlProfile::Rl, cs)),
        within_profile(OwlProfile::Ql, cs) ==> detected_profile(cs) == OwlProfile::Ql,
{
    lemma_within_iff_nothing_outside(detected_profile(cs), cs);
}

/// A profile that admits a construct set admits every set drawn from it.
pub proof fn lemma_fewer_constructs_stay_within(
    profile: OwlProfile,
    cs: Seq<OwlConstruct>,
    sub: Seq<OwlConstruct>,
)
    requires
        forall|i: int| 0 <= i < sub.len() ==> cs.contains(#[trigger] sub[i]),
        within_profile(profile, cs),
    ensures
        within_profile(profile, sub),
{
    assert forall|i: int| 0 <= i < sub.len() implies !outside_profile(profile, #[trigger] sub[i]) by {
        assert(cs.contains(sub[i]));
        let j = choose|j: int| 0 <= j < cs.len() && cs[j] == sub[i];
        assert(!outside_profile(profile, cs[j]));
    }
}

/// Every construct that blocks EL classification lies outside OWL 2 EL, so the classification
/// blockers of a set are among its constructs outside EL.
pub proof fn lemma_classification_blockers_lie_outside_el(cs: Seq<OwlConstruct>, c: OwlConstruct)
    ensures
        blocks_el_classification(c) ==> outside_el(c),
        picked(ConstructRule::BlocksElClassification, cs).contains(c)
            ==> picked(ConstructRule::OutsideProfile(OwlProfile::El), cs).contains(c),
{
    let blocks = |x: OwlConstruct| rule_picks(ConstructRule::BlocksElClassification, x);
    let outside = |x: OwlConstruct| rule_picks(ConstructRule::OutsideProfile(OwlProfile::El), x);
    if picked(ConstructRule::BlocksElClassification, cs).contains(c) {
        let k = choose|k: int| 0 <= k < cs.filter(blocks).len() && cs.filter(blocks)[k] == c;
        cs.lemma_filter_pred(blocks, k);
        cs.lemma_filter_contains_rev(blocks, c);
        let j = choose|j: int| 0 <= j < cs.len() && cs[j] == c;
        cs.lemma_filter_contains(outside, j);
    }
}

/// Annotations, imports and unknown constructs leave the detected profile unchanged.
pub proof fn lemma_neutral_constructs_keep_detection(cs: Seq<OwlConstruct>, n: OwlConstruct)
    requires
        neutral(n),
    ensures
        detected_profile(cs.push(n)) == detected_profile(cs),
{
    let s = cs.push(n);
    assert forall|p: OwlProfile| within_profile(p, s) == within_profile(p, cs) by {
        if within_profile(p, cs) {
            assert forall|i: int| 0 <= i < s.len() implies !outside_profile(p, #[trigger] s[i]) by {
                if i < cs.len() {
                    assert(s[i] == cs[i]);
                }
            }
        }
        if within_profile(p, s) {
            assert forall|i: int| 0 <= i < cs.len() implies !outside_profile(p, #[trigger] cs[i]) by {
                assert(s[i] == cs[i]);
            }
        }
    }
    if has_el_marker(s) {
        let i = choose|i: int| 0 <= i < s.len() && el_marker(#[trigger] s[i]);
        assert(i < cs.len() && cs[i] == s[i]);
    }
    if has_el_marker(cs) {
        let i = choose|i: int| 0 <= i < cs.len() && el_marker(#[trigger] cs[i]);
        assert(s[i] == cs[i]);
    }
    if has_rl_marker(s) {
        let i = choose|i: int| 0 <= i < s.len() && rl_marker(#[trigger] s[i]);
        assert(i < cs.len() && cs[i] == s[i]);
    }
    if has_rl_marker(cs) {
        let i = choose|i: int| 0 <= i < cs.len() && rl_marker(#[trigger] cs[i]);
        assert(s[i] == cs[i]);
    }
}

/// Keeping the first entry per construct reports each construct at most once, and reports every
/// construct that some entry names.
pub proof fn lemma_first_per_construct_reports_each_once(s: Seq<(OwlConstruct, DlReason)>)
    ensures
        forall|i: int, j: int|
            0 <= i < j < first_per_construct(s).len()
                ==> (#[trigger] first_per_construct(s)[i]).0 != (#[trigger] first_per_construct(s)[j]).0,
        forall|k: int| 0 <= k < s.len() ==> reported_before(first_per_construct(s), first_per_construct(s).len() as int, (#[trigger] s[k]).0),
        forall|k: int| 0 <= k < first_per_construct(s).len() ==> reported_before(s, s.len() as int, (#[trigger] first_per_construct(s)[k]).0),
    decreases s.len(),
{
    if s.len() > 0 {
        let prefix = s.drop_last();
        lemma_first_per_construct_reports_each_once(prefix);
        let kept = first_per_construct(prefix);
        let last = s.last();
        assert forall|k: int| 0 <= k < prefix.len() implies #[trigger] prefix[k] == s[k] by {}
        if reported_before(s, s.len() - 1, last.0) {
            let j = choose|j: int| 0 <= j < s.len() - 1 && (#[trigger] s[j]).0 == last.0;
            assert(prefix[j] == s[j]);
            assert forall|k: int| 0 <= k < s.len() implies reported_before(
                first_per_construct(s), first_per_construct(s).len() as int, (#[trigger] s[k]).0) by {
                if k < prefix.len() {
                    assert(prefix[k] == s[k]);
                } else {
                    assert(prefix[j] == s[j]);
                }
            }
            assert forall|k: int| 0 <= k < kept.len() implies reported_before(s, s.len() as int, (#[trigger] kept[k]).0) by {
                let m = choose|m: int| 0 <= m < prefix.len() && (#[trigger] prefix[m]).0 == kept[k].0;
                assert(s[m] == prefix[m]);
            }
        } else {
            let out = kept.push(last);
            assert(first_per_construct(s) == out);
            assert forall|i: int, j: int| 0 <= i < j < out.len() implies (#[trigger] out[i]).0 != (#[trigger] out[j]).0 by {
                if j == out.len() - 1 {
                    assert(out[i] == kept[i]);
                    let m = choose|m: int| 0 <= m < prefix.len() && (#[trigger] prefix[m]).0 == kept[i].0;
                    assert(s[m] == prefix[m]);
                } else {
                    assert(out[i] == kept[i] && out[j] == kept[j]);
                }
            }
            assert forall|k: int| 0 <= k < s.len() implies reported_before(out, out.len() as int, (#[trigger] s[k]).0) by {
                if k < prefix.len() {
                    assert(prefix[k] == s[k]);
                    let m = choose|m: int| 0 <= m < kept.len() && (#[trigger] kept[m]).0 == prefix[k].0;
                    assert(out[m] == kept[m]);
                } else {
                    assert(out[out.len() - 1] == last);
                }
            }
            assert forall|k: int| 0 <= k < out.len() implies reported_before(s, s.len() as int, (#[trigger] out[k]).0) by {
                if k < kept.len() {
                    assert(out[k] == kept[k]);
                    let m = choose|m: int| 0 <= m < prefix.len() && (#[trigger] prefix[m]).0 == kept[k].0;
                    assert(s[m] == prefix[m]);
                } else {
                    assert(s[s.len() - 1] == last);
                }
            }
        }
    }
}


/// The table of forbidden constructs of a profile lists exactly the constructs outside it, each once.
pub proof fn lemma_forbidden_list_matches_profile(profile: OwlProfile, c: OwlConstruct)
    ensures
        forbidden_list(profile).contains(c) <==> outside_profile(profile, c),
        forbidden_list(profile).no_duplicates(),
{
    let list = forbidden_list(profile);
    match profile {
        OwlProfile::Ql => {
            assert forall|i: int| 0 <= i < list.len() implies outside_profile(profile, #[trigger] list[i]) by {
                if i == 0 {} else if i == 1 {} else if i == 2 {} else if i == 3 {} else if i == 4 {} else if i == 5 {} else if i == 6 {} else if i == 7 {} else if i == 8 {} else if i == 9 {} else if i == 10 {} else if i == 11 {} else if i == 12 {} else if i == 13 {} else if i == 14 {} else if i == 15 {} else if i == 16 {} else if i == 17 {} else if i == 18 {} else if i == 19 {} else if i == 20 {} else if i == 21 {} else if i == 22 {} else if i == 23 {} else if i == 24 {} else if i == 25 {} else if i == 26 {}
            }
            assert forall|i: int, j: int| 0 <= i < j < list.len() implies #[trigger] list[i] != #[trigger] list[j] by {
                if i == 0 {} else if i == 1 {} else if i == 2 {} else if i == 3 {} else if i == 4 {} else if i == 5 {} else if i == 6 {} else if i == 7 {} else if i == 8 {} else if i == 9 {} else if i == 10 {} else if i == 11 {} else if i == 12 {} else if i == 13 {} else if i == 14 {} else if i == 15 {} else if i == 16 {} else if i == 17 {} else if i == 18 {} else if i == 19 {} else if i == 20 {} else if i == 21 {} else if i == 22 {} else if i == 23 {} else if i == 24 {} else if i == 25 {} else if i == 26 {}
            }
            if outside_profile(profile, c) {
                match c {
                    OwlConstruct::ObjectComplementOf => { assert(list[0] == c); },
                    OwlConstruct::ObjectUnionOf => { assert(list[1] == c); },
                    OwlConstruct::ObjectOneOf => { assert(list[2] == c); },
                    OwlConstruct::ObjectCardinality => { assert(list[3] == c); },
                    OwlConstruct::ObjectHasValue => { assert(list[4] == c); },
                    OwlConstruct::ObjectHasSelf => { assert(list[5] == c); },
                    OwlConstruct::SubClassOfExistential => { assert(list[6] == c); },
                    OwlConstruct::SubClassOfIntersection => { assert(list[7] == c); },
                    OwlConstruct::ObjectSomeValuesFrom => { assert(list[8] == c); },
                    OwlConstruct::ObjectIntersectionOf => { assert(list[9] == c); },
                    OwlConstruct::SubObjectPropertyChain => { assert(list[10] == c); },
                    OwlConstruct::DisjointUnion => { assert(list[11] == c); },
                    OwlConstruct::HasKey => { assert(list[12] == c); },
                    OwlConstruct::IndividualEquality => { assert(list[13] == c); },
                    OwlConstruct::ClassAssertion => { assert(list[14] == c); },
                    OwlConstruct::ObjectPropertyAssertion => { assert(list[15] == c); },
                    OwlConstruct::DataPropertyAssertion => { assert(list[16] == c); },
                    OwlConstruct::SwrlRule => { assert(list[17] == c); },
                    OwlConstruct::InverseObjectProperties => { assert(list[18] == c); },
                    OwlConstruct::EquivalentObjectProperties => { assert(list[19] == c); },
                    OwlConstruct::SymmetricObjectProperty => { assert(list[20] == c); },
                    OwlConstruct::AsymmetricObjectProperty => { assert(list[21] == c); },
                    OwlConstruct::ReflexiveObjectProperty => { assert(list[22] == c); },
                    OwlConstruct::IrreflexiveObjectProperty => { assert(list[23] == c); },
                    OwlConstruct::FunctionalObjectProperty => { assert(list[24] == c); },
                    OwlConstruct::InverseFunctionalObjectProperty => { assert(list[25] == c); },
                    OwlConstruct::TransitiveObjectProperty => { assert(list[26] == c); },
                    _ => {},
                }
            }
            if list.contains(c) {
                let k = choose|k: int| 0 <= k < list.len() && list[k] == c;
                assert(outside_profile(profile, list[k]));
            }
        },
        OwlProfile::El => {
            assert forall|i: int| 0 <= i < list.len() implies outside_profile(profile, #[trigger] list[i]) by {
                if i == 0 {} else if i == 1 {} else if i == 2 {} else if i == 3 {} else if i == 4 {} else if i == 5 {} else if i == 6 {} else if i == 7 {} else if i == 8 {} else if i == 9 {} else if i == 10 {} else if i == 11 {} else if i == 12 {} else if i == 13 {} else if i == 14 {} else if i == 15 {} else if i == 16 {} else if i == 17 {} else if i == 18 {} else if i == 19 {} else if i == 20 {} else if i == 21 {} else if i == 22 {} else if i == 23 {}
            }
            assert forall|i: int, j: int| 0 <= i < j < list.len() implies #[trigger] list[i] != #[trigger] list[j] by {
                if i == 0 {} else if i == 1 {} else if i == 2 {} else if i == 3 {} else if i == 4 {} else if i == 5 {} else if i == 6 {} else if i == 7 {} else if i == 8 {} else if i == 9 {} else if i == 10 {} else if i == 11 {} else if i == 12 {} else if i == 13 {} else if i == 14 {} else if i == 15 {} else if i == 16 {} else if i == 17 {} else if i == 18 {} else if i == 19 {} else if i == 20 {} else if i == 21 {} else if i == 22 {} else if i == 23 {}
            }
            if outside_profile(profile, c) {
                match c {
                    OwlConstruct::ObjectAllValuesFrom => { assert(list[0] == c); },
                    OwlConstruct::ObjectComplementOf => { assert(list[1] == c); },
                    OwlConstruct::ObjectUnionOf => { assert(list[2] == c); },
                    OwlConstruct::ObjectOneOf => { assert(list[3] == c); },
                    OwlConstruct::ObjectCardinality => { assert(list[4] == c); },
                    OwlConstruct::ObjectHasValue => { assert(list[5] == c); },
                    OwlConstruct::ObjectHasSelf => { assert(list[6] == c); },
                    OwlConstruct::SubObjectPropertyChain => { assert(list[7] == c); },
                    OwlConstruct::DisjointUnion => { assert(list[8] == c); },
                    OwlConstruct::HasKey => { assert(list[9] == c); },
                    OwlConstruct::IndividualEquality => { assert(list[10] == c); },
                    OwlConstruct::ClassAssertion => { assert(list[11] == c); },
                    OwlConstruct::ObjectPropertyAssertion => { assert(list[12] == c); },
                    OwlConstruct::DataPropertyAssertion => { assert(list[13] == c); },
                    OwlConstruct::SwrlRule => { assert(list[14] == c); },
                    OwlConstruct::InverseObjectProperties => { assert(list[15] == c); },
                    OwlConstruct::FunctionalObjectProperty => { assert(list[16] == c); },
                    OwlConstruct::InverseFunctionalObjectProperty => { assert(list[17] == c); },
                    OwlConstruct::SymmetricObjectProperty => { assert(list[18] == c); },
                    OwlConstruct::ReflexiveObjectProperty => { assert(list[19] == c); },
                    OwlConstruct::AsymmetricObjectProperty => { assert(list[20] == c); },
                    OwlConstruct::IrreflexiveObjectProperty => { assert(list[21] == c); },
                    OwlConstruct::DisjointObjectProperties => { assert(list[22] == c); },
                    OwlConstruct::EquivalentObjectProperties => { assert(list[23] == c); },
                    _ => {},
                }
            }
            if list.contains(c) {
                let k = choose|k: int| 0 <= k < list.len() && list[k] == c;
                assert(outside_profile(profile, list[k]));
            }
        },
        OwlProfile::Rl => {
            assert forall|i: int| 0 <= i < list.len() implies outside_profile(profile, #[trigger] list[i]) by {
                if i == 0 {} else if i == 1 {} else if i == 2 {} else if i == 3 {} else if i == 4 {} else if i == 5 {} else if i == 6 {} else if i == 7 {} else if i == 8 {} else if i == 9 {} else if i == 10 {} else if i == 11 {} else if i == 12 {} else if i == 13 {} else if i == 14 {}
            }
            assert forall|i: int, j: int| 0 <= i < j < list.len() implies #[trigger] list[i] != #[trigger] list[j] by {
                if i == 0 {} else if i == 1 {} else if i == 2 {} else if i == 3 {} else if i == 4 {} else if i == 5 {} else if i == 6 {} else if i == 7 {} else if i == 8 {} else if i == 9 {} else if i == 10 {} else if i == 11 {} else if i == 12 {} else if i == 13 {} else if i == 14 {}
            }
            if outside_profile(profile, c) {
                match c {
                    OwlConstruct::ObjectComplementOf => { assert(list[0] == c); },
                    OwlConstruct::ObjectOneOf => { assert(list[1] == c); },
                    OwlConstruct::ObjectHasValue => { assert(list[2] == c); },
                    OwlConstruct::ObjectHasSelf => { assert(list[3] == c); },
                    OwlConstruct::ObjectCardinality => { assert(list[4] == c); },
                    OwlConstruct::DisjointUnion => { assert(list[5] == c); },
                    OwlConstruct::HasKey => { assert(list[6] == c); },
                    OwlConstruct::DataPropertyAssertion => { assert(list[7] == c); },
                    OwlConstruct::SwrlRule => { assert(list[8] == c); },
                    OwlConstruct::ObjectAllValuesFrom => { assert(list[9] == c); },
                    OwlConstruct::ObjectUnionOf => { assert(list[10] == c); },
                    OwlConstruct::SubClassOfExistential => { assert(list[11] == c); },
                    OwlConstruct::ObjectSomeValuesFrom => { assert(list[12] == c); },
                    OwlConstruct::SubClassOfIntersection => { assert(list[13] == c); },
                    OwlConstruct::ObjectIntersectionOf => { assert(list[14] == c); },
                    _ => {},
                }
            }
            if list.contains(c) {
                let k = choose|k: int| 0 <= k < list.len() && list[k] == c;
                assert(outside_profile(profile, list[k]));
            }
        },
        OwlProfile::Dl => {},
    }
}


/// A source-only diagnostic reports a construct of the source that the mapped constructs miss,
/// that is not neutral, and that lies outside the detected profile; every such construct is
/// reported.
pub proof fn lemma_source_only_reports_unmapped_outside(
    detected: OwlProfile,
    source: Seq<OwlConstruct>,
    mapped: Seq<OwlConstruct>,
    c: OwlConstruct,
)
    ensures
        source_only(detected, source, mapped).contains(c) <==> (source.contains(c) && !mapped.contains(c)
            && !neutral(c) && outside_profile(detected, c)),
{
    let pred = |x: OwlConstruct| !mapped.contains(x) && !neutral(x) && outside_profile(detected, x);
    let out = source.filter(pred);
    if out.contains(c) {
        let k = choose|k: int| 0 <= k < out.len() && out[k] == c;
        source.lemma_filter_pred(pred, k);
        source.lemma_filter_contains_rev(pred, c);
    }
    if source.contains(c) && pred(c) {
        let j = choose|j: int| 0 <= j < source.len() && source[j] == c;
        source.lemma_filter_contains(pred, j);
    }
}

} // verus!
