//! The call signature of an action or a guard at one place of use.

use crate::syntax::{opt_type_syntax, same_type, type_syntax};
use vstd::prelude::*;
use vstd::std_specs::cmp::PartialEqSpecImpl;

verus! {

/// The shape of a call: the types handed in, in order, the type handed back,
/// and whether the call is awaited.
#[derive(Clone, Debug)]
pub struct FunctionSignature<'a> {
    arguments: Vec<&'a syn::Type>,
    result: Option<&'a syn::Type>,
    is_async: bool,
}

/// View of a [`FunctionSignature`]: each type by its syntax.
pub struct SignatureView {
    pub arguments: Seq<Seq<char>>,
    pub result: Option<Seq<char>>,
    pub is_async: bool,
}

/// The sequence that holds `item` if there is one, and nothing else.
pub open spec fn seq_of_option<A>(item: Option<A>) -> Seq<A> {
    match item {
        Some(a) => seq![a],
        None => Seq::empty(),
    }
}

/// The signature of a callable that is handed the data of the state in which
/// the machine is, if that state carries data, then the data of the event,
/// if the event carries data, and that hands back `output_data`.
pub open spec fn call_signature(
    input_data: Option<Seq<char>>,
    event_data: Option<Seq<char>>,
    output_data: Option<Seq<char>>,
    is_async: bool,
) -> SignatureView {
    SignatureView {
        arguments: seq_of_option(input_data) + seq_of_option(event_data),
        result: output_data,
        is_async,
    }
}

/// The signature of a guard, which hands back no data.
pub open spec fn guard_signature(
    input_state: Option<Seq<char>>,
    event: Option<Seq<char>>,
    is_async: bool,
) -> SignatureView {
    call_signature(input_state, event, None, is_async)
}

impl<'a> View for FunctionSignature<'a> {
    type V = SignatureView;

    closed spec fn view(&self) -> SignatureView {
        SignatureView {
            arguments: self.arguments@.map_values(|ty: &syn::Type| type_syntax(*ty)),
            result: opt_type_syntax(self.result),
            is_async: self.is_async,
        }
    }
}

impl<'a> FunctionSignature<'a> {
    /// The signature of a callable at a place of use, from the data types
    /// found there.
    pub fn new(
        input_data: Option<&'a syn::Type>,
        event_data: Option<&'a syn::Type>,
        output_data: Option<&'a syn::Type>,
        is_async: bool,
    ) -> (signature: Self)
        ensures
            signature@ == call_signature(
                opt_type_syntax(input_data),
                opt_type_syntax(event_data),
                opt_type_syntax(output_data),
                is_async,
            ),
    {
        let mut input_arguments: Vec<&'a syn::Type> = Vec::new();
        if let Some(datatype) = input_data {
            input_arguments.push(datatype);
        }
        if let Some(datatype) = event_data {
            input_arguments.push(datatype);
        }
        let signature = FunctionSignature {
            arguments: input_arguments,
            result: output_data,
            is_async,
        };
        assert(signature@.arguments =~= seq_of_option(opt_type_syntax(input_data))
            + seq_of_option(opt_type_syntax(event_data)));
        signature
    }

    /// The signature of a guard at a place of use. A guard hands back no data.
    pub fn new_guard(
        input_state: Option<&'a syn::Type>,
        event: Option<&'a syn::Type>,
        is_async: bool,
    ) -> (signature: Self)
        ensures
            signature@ == guard_signature(
                opt_type_syntax(input_state),
                opt_type_syntax(event),
                is_async,
            ),
    {
        Self::new(input_state, event, None, is_async)
    }
}

impl<'a> PartialEq for FunctionSignature<'a> {
    /// Two signatures are equal when all their parts are: the same types in
    /// the same order, the same result, the same way of calling.
    fn eq(&self, other: &Self) -> (equal: bool) {
        if self.is_async != other.is_async {
            return false;
        }
        let results_equal = match (self.result, other.result) {
            (Some(a), Some(b)) => same_type(a, b),
            (None, None) => true,
            _ => false,
        };
        if !results_equal {
            return false;
        }
        if self.arguments.len() != other.arguments.len() {
            assert(self@.arguments.len() != other@.arguments.len());
            return false;
        }
        let mut i: usize = 0;
        while i < self.arguments.len()
            invariant
                i <= self.arguments.len(),
                self.arguments.len() == other.arguments.len(),
                forall|j: int| 0 <= j < i ==> self@.arguments[j] == other@.arguments[j],
            decreases self.arguments.len() - i,
        {
            if !same_type(self.arguments[i], other.arguments[i]) {
                assert(self@.arguments[i as int] != other@.arguments[i as int]);
                return false;
            }
            i += 1;
        }
        assert(self@.arguments =~= other@.arguments);
        true
    }
}

impl<'a> PartialEqSpecImpl for FunctionSignature<'a> {
    open spec fn obeys_eq_spec() -> bool {
        true
    }

    open spec fn eq_spec(&self, other: &Self) -> bool {
        self@ == other@
    }
}

} // verus!
