//! Converts an XML document into a tree of objects, arrays and scalars, as
//! code that expects JSON-like data wants it.
//!
//! The events of a document come from the `quick-xml` tokenizer, behind
//! [`tokenizer`]; [`events`] decodes them. Two conversions consume them:
//! [`xml_to_struct_to_js_object`] builds the tree of [`xml_node`] first and
//! flattens it, [`xml_to_js_object`] builds the value in one pass.
//! [`equivalence`] proves that the two agree, and [`unique`] that neither
//! gives an object two properties of one name.

pub mod equivalence;
pub mod error;
pub mod events;
pub mod keyed;
pub mod scalar;
pub mod text;
pub mod tokenizer;
pub mod unique;
pub mod unordered;
pub mod value;
pub mod xml_node;
pub mod xml_to_js_object;
pub mod xml_to_struct_to_js_object;
