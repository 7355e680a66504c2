//! What the validation reports when a description is not coherent.

use vstd::prelude::*;

verus! {

/// A rule that a description breaks, with the names that locate the breach.
#[derive(Debug, PartialEq, Eq)]
pub enum Violation {
    /// An action is used in two places with different call signatures.
    InconsistentAction { action: String },
    /// A guard is used in two places with different call signatures.
    InconsistentGuard { guard: String },
    /// A guarded transition follows an unguarded one for the same state and
    /// event, and so can never be taken. `guard` is its guard expression as
    /// text.
    UnreachableTransition { state: String, event: String, guard: String },
    /// A second unguarded transition is given for the same state and event.
    DuplicateTransition { state: String, event: String },
}

/// View of a [`Violation`].
pub enum ViolationView {
    InconsistentAction { action: Seq<char> },
    InconsistentGuard { guard: Seq<char> },
    UnreachableTransition { state: Seq<char>, event: Seq<char>, guard: Seq<char> },
    DuplicateTransition { state: Seq<char>, event: Seq<char> },
}

impl View for Violation {
    type V = ViolationView;

    open spec fn view(&self) -> ViolationView {
        match self {
            Violation::InconsistentAction { action } => ViolationView::InconsistentAction {
                action: action@,
            },
            Violation::InconsistentGuard { guard } => ViolationView::InconsistentGuard {
                guard: guard@,
            },
            Violation::UnreachableTransition {
                state,
                event,
                guard,
            } => ViolationView::UnreachableTransition {
                state: state@,
                event: event@,
                guard: guard@,
            },
            Violation::DuplicateTransition { state, event } => ViolationView::DuplicateTransition {
                state: state@,
                event: event@,
            },
        }
    }
}

impl DeepView for Violation {
    type V = ViolationView;

    open spec fn deep_view(&self) -> ViolationView {
        self@
    }
}

impl ViolationView {
    /// The text that tells a person what is wrong.
    pub open spec fn message(self) -> Seq<char> {
        match self {
            ViolationView::InconsistentAction { action } => "Action `"@ + action
                + "` can only be reused when all input states, events, and output states have the same data"@,
            ViolationView::InconsistentGuard { guard } => "Guard `"@ + guard
                + "` can only be reused when all input states and events have the same data"@,
            ViolationView::UnreachableTransition { state, event, guard } => state + " + "@ + event
                + ": ["@ + guard
                + "] : guarded transition is unreachable because it follows an unguarded transition, which handles all cases"@,
            ViolationView::DuplicateTransition { state, event } => state + " + "@ + event
                + ": State and event combination specified multiple times, remove duplicates."@,
        }
    }
}

impl Violation {
    /// The text that tells a person what is wrong.
    pub fn message(&self) -> (text: String)
        ensures
            text@ == self@.message(),
    {
        match self {
            Violation::InconsistentAction { action } => {
                let mut text = String::from_str("Action `");
                text.append(action.as_str());
                text.append(
                    "` can only be reused when all input states, events, and output states have the same data",
                );
                text
            },
            Violation::InconsistentGuard { guard } => {
                let mut text = String::from_str("Guard `");
                text.append(guard.as_str());
                text.append(
                    "` can only be reused when all input states and events have the same data",
                );
                text
            },
            Violation::UnreachableTransition { state, event, guard } => {
                let mut text = String::from_str(state.as_str());
                text.append(" + ");
                text.append(event.as_str());
                text.append(": [");
                text.append(guard.as_str());
                text.append(
                    "] : guarded transition is unreachable because it follows an unguarded transition, which handles all cases",
                );
                text
            },
            Violation::DuplicateTransition { state, event } => {
                let mut text = String::from_str(state.as_str());
                text.append(" + ");
                text.append(event.as_str());
                text.append(
                    ": State and event combination specified multiple times, remove duplicates.",
                );
                text
            },
        }
    }

    /// The violation as an error of `syn`, placed at the call site of the
    /// macro that is being expanded.
    pub fn to_error(&self) -> (error: syn::Error)
        ensures
            error_message(error) == self@.message(),
    {
        let text = self.message();
        new_error(call_site(), text.as_str())
    }
}

/// The outcome of a validation as the violation found, if any.
pub open spec fn found(outcome: Result<(), Violation>) -> Option<ViolationView> {
    match outcome {
        Ok(_) => None,
        Err(violation) => Some(violation@),
    }
}

/// A position in source text, as `proc_macro2` holds it.
#[verifier::external_type_specification]
#[verifier::external_body]
pub struct ExSpan(proc_macro2::Span);

/// An error of `syn`: a message at a position.
#[verifier::external_type_specification]
#[verifier::external_body]
pub struct ExError(syn::Error);

/// The message that an error of `syn` was made with, which is the text that
/// it displays.
pub uninterp spec fn error_message(error: syn::Error) -> Seq<char>;

/// Calls `proc_macro2::Span::call_site`. Which position comes back depends
/// on where the program runs, so nothing is claimed of it.
#[verifier::external_body]
fn call_site() -> proc_macro2::Span {
    proc_macro2::Span::call_site()
}

/// Calls `syn::Error::new`. The contract claims that the error keeps the
/// message as it is given, which `syn` shows when it displays the error.
#[verifier::external_body]
fn new_error(span: proc_macro2::Span, message: &str) -> (error: syn::Error)
    ensures
        error_message(error) == message@,
{
    syn::Error::new(span, message)
}

} // verus!
