//! Static consistency validation for a declarative state-machine description.
//!
//! A description names states, events, transitions, guards and actions. It is
//! coherent when every action and every guard is used with one call signature
//! wherever it appears, and no transition stands behind one that is always
//! taken. [`validate`] checks the three rules in that order and reports the
//! first breach.

use crate::action_check::validate_action_signatures;
use crate::guard_check::validate_guard_signatures;
use crate::laws::violations_are_reported_in_order;
use crate::model::{MachineView, ParsedStateMachine};
use crate::reachability::{
    all_well_ordered, reachability_violation, validate_unreachable_transitions,
};
use crate::sites::{consistent, signature_violation, Callable};
use crate::violation::{error_message, ViolationView};
use vstd::prelude::*;

pub mod action_check;
pub mod expression;
pub mod guard_check;
pub mod laws;
pub mod model;
pub mod reachability;
mod sequences;
pub mod signature;
pub mod sites;
pub mod syntax;
pub mod tracker;
pub mod violation;

verus! {

/// What a validation of `sm` reports: what the check of the actions finds;
/// if that finds nothing, what the check of the guards finds; if that finds
/// nothing either, what the check of the order of the transitions finds.
pub open spec fn first_violation(sm: MachineView) -> Option<ViolationView> {
    match signature_violation(Callable::Action, sm.sites(Callable::Action)) {
        Some(violation) => Some(violation),
        None => match signature_violation(Callable::Guard, sm.sites(Callable::Guard)) {
            Some(violation) => Some(violation),
            None => reachability_violation(sm),
        },
    }
}

/// The description is coherent: every action is used with one signature,
/// every guard is used with one signature, and in every bundle every
/// transition but the last has a guard.
pub open spec fn coherent(sm: MachineView) -> bool {
    &&& consistent(sm.sites(Callable::Action))
    &&& consistent(sm.sites(Callable::Guard))
    &&& all_well_ordered(sm)
}

/// Validates the coherency of the state machine.
///
/// Runs the check of the action signatures, then that of the guard
/// signatures, then that of the order of the transitions, and stops at the
/// first that fails. The error carries the message of the violation found.
pub fn validate(sm: &ParsedStateMachine) -> (outcome: Result<(), syn::Error>)
    ensures
        match first_violation(sm@) {
            None => outcome is Ok,
            Some(violation) => outcome is Err && error_message(outcome->Err_0)
                == violation.message(),
        },
        outcome is Ok <==> coherent(sm@),
{
    proof {
        violations_are_reported_in_order(sm@);
    }
    if let Err(violation) = validate_action_signatures(sm) {
        return Err(violation.to_error());
    }
    if let Err(violation) = validate_guard_signatures(sm) {
        return Err(violation.to_error());
    }
    if let Err(violation) = validate_unreachable_transitions(sm) {
        return Err(violation.to_error());
    }
    Ok(())
}

} // verus!
