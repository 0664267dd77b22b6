use vstd::prelude::*;

pub mod builder;
pub mod document;
pub mod extract;
pub mod graph;
pub mod iri;
pub mod json;
pub mod laws;
pub mod jsontext;
pub mod manifests;
pub mod price;
pub mod readiness;
pub mod render;
pub mod robots;
pub mod text;

verus! {

} // verus!
