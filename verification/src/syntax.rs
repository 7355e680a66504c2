//! The data types of states and events, as `syn` parses and compares them.

use vstd::prelude::*;

verus! {

/// A Rust type as `syn` holds it. Verus sees nothing inside a value of it.
#[verifier::external_type_specification]
#[verifier::external_body]
pub struct ExType(syn::Type);

/// The syntax of a type with the source positions of its tokens left out:
/// what `syn` looks at when it compares two types.
pub uninterp spec fn type_syntax(ty: syn::Type) -> Seq<char>;

/// The syntax of an optional data type.
pub open spec fn opt_type_syntax(ty: Option<&syn::Type>) -> Option<Seq<char>> {
    match ty {
        Some(t) => Some(type_syntax(*t)),
        None => None,
    }
}

/// Calls `==` of `syn::Type`. `syn` implements it, and `Eq` with it, as
/// equality of the two syntax trees, the positions of the tokens not
/// counted: the contract claims that the result is `true` exactly when the
/// two types have the same syntax.
#[verifier::external_body]
pub(crate) fn same_type(a: &syn::Type, b: &syn::Type) -> (same: bool)
    ensures
        same == (type_syntax(*a) == type_syntax(*b)),
{
    a == b
}

} // verus!
