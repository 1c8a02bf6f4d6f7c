//! The shapes of concrete syntax that lowering inspects.
use vstd::prelude::*;
use crate::hir::{Loc, Reference};

verus! {

/// Binary operators of the concrete syntax.
#[derive(Debug, Clone, Copy, PartialEq, Eq, Structural)]
pub enum BinOp {
    Comma,
    Semicolon,
    Add,
    Sub,
    Mul,
    Div,
    Eq,
    Cons,
}

/// The parts of a concrete syntax tree that lowering inspects.
#[derive(Debug, PartialEq, Eq)]
pub enum Syntax {
    BinOp(Box<Syntax>, BinOp, Box<Syntax>),
    SrcPos(Box<Syntax>, Loc),
    Ident(String),
    Int(i64),
}

/// Type expressions of the concrete syntax.
#[derive(Debug)]
pub enum TypeExpr {
    SrcPos(Box<TypeExpr>, Loc),
    Pair(Vec<TypeExpr>),
    Tuple(Vec<TypeExpr>),
    Fun(Box<TypeExpr>, Box<TypeExpr>),
    App(Reference, Box<TypeExpr>),
    Local(Box<TypeExpr>),
    /// A named type variable such as `'a`.
    Meta(String),
    Constructor(Reference),
    /// An anonymous type to be inferred.
    Hole,
}

} // verus!
