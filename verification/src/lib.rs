use vstd::prelude::*;

pub mod text;
pub mod typed;
pub mod xml;
pub mod classes;
pub mod entities;
pub mod error;
pub mod format;
pub mod ids;
pub mod js;
pub mod limits;
pub mod profile;
pub mod constructs;
pub mod hybrid;
pub mod supplements;
pub mod supplement_checks;
pub mod imports;
pub mod preprocess;
pub mod blank_nodes;
pub mod same_as;
pub mod descriptions;
pub mod all_different;
pub mod disjoint;
pub mod typed_about;
pub mod legacy;
pub mod ofn;
pub mod complex;
pub mod iri_set;
pub mod punning;
pub mod ofn_terms;
pub mod restrictions;
pub mod reified;
pub mod object_assertions;
pub mod scan;
pub mod pairs;
pub mod properties;
pub mod subclasses;
pub mod self_disjoint;
pub mod literals;
pub mod booleans;
pub mod class_assertions;
pub mod budget;
pub mod lexical;
pub mod paths;

verus! {

} // verus!
