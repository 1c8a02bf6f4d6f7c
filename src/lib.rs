//! Typed intermediate representation of a small functional language and the
//! context that lowers concrete syntax into it: scopes, fresh names,
//! diagnostics, unification of monomorphic types and let-polymorphism.
pub mod hir;
pub mod lowering;
pub mod syntax;
pub mod laws;
