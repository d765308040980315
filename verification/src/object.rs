//! Values exchanged with the interpreter at the library's boundary.
use vstd::prelude::*;
use crate::metadata::AnnotatedObject;

verus! {

/// A value passed into or returned from the interpreter.
///
/// Containers hold [`AnnotatedObject`]s, so every element carries its own metadata.
#[derive(Debug, PartialEq)]
pub enum MontyObject {
    /// Python's `None` (named so to keep the word `None` for `Option`).
    NoneValue,
    /// A boolean.
    Bool(bool),
    /// An integer.
    Int(i64),
    /// A string.
    String(String),
    /// A list of annotated elements.
    List(Vec<AnnotatedObject>),
    /// A tuple of annotated elements.
    Tuple(Vec<AnnotatedObject>),
    /// A dict as annotated key/value pairs, in insertion order.
    Dict(AnnotatedDictPairs),
}

/// The entries of a dict, each key and value with its own metadata.
#[derive(Debug, PartialEq)]
pub struct AnnotatedDictPairs(pub Vec<(AnnotatedObject, AnnotatedObject)>);

} // verus!
