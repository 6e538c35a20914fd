//! Structural data for the toy language's syntax tree.
//!
//! These definitions carry no invariants of their own; they exist so that a
//! compiler pass has concrete payloads and annotation values to attach to a
//! [`crate::node::Node`]. An inferred [`Type`] is the annotation value a
//! typing pass records.

use vstd::prelude::*;

verus! {

/// A name, either bare or qualified by a module path.
#[derive(Debug)]
pub enum Ident {
    Simple(String),
    Qualified(Vec<String>, String),
}

/// One named, typed field of a struct definition.
#[derive(Debug)]
pub struct StructField {
    pub ident: Ident,
    pub field_type: Type,
}

/// One method signature inside a trait definition.
#[derive(Debug)]
pub struct TraitMethod {
    pub ident: Ident,
    pub parameters: Vec<Parameter>,
    pub return_type: Type,
}

/// A formal parameter: a name and its declared type.
#[derive(Debug)]
pub struct Parameter {
    pub ident: Ident,
    pub parameter_type: Type,
}

/// A binary operator of the toy language.
#[derive(Debug)]
pub enum BinOp {
    Mult,
    Div,
    Plus,
    Minus,
    LT,
    LTE,
    GT,
    GTE,
    Equal,
}

/// A type of the toy language.
#[derive(Debug)]
pub enum Type {
    Unit,
    I32,
    F32,
    Function(Vec<Parameter>, Box<Type>),
    Ident(Ident),
}

} // verus!
