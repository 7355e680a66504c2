//! No transition stands behind one that is always taken.

use crate::laws::order_is_accepted_iff_well_ordered;
use crate::model::{
    EventMapping, EventMappingView, MachineView, ParsedStateMachine, TransitionView,
};
use crate::violation::{found, Violation, ViolationView};
use vstd::prelude::*;

verus! {

/// Position `u` is the first at which a transition has no guard, and it is
/// not the last position: a transition follows that can never be taken.
pub open spec fn catch_all_before_end(transitions: Seq<TransitionView>, u: int) -> bool {
    &&& 0 <= u < transitions.len() - 1
    &&& transitions[u].guard is None
    &&& forall|i: int| 0 <= i < u ==> (#[trigger] transitions[i]).guard is Some
}

/// Every transition but the last has a guard: an unguarded transition, if
/// there is one, is the only one and comes last.
pub open spec fn well_ordered(transitions: Seq<TransitionView>) -> bool {
    forall|i: int| 0 <= i < transitions.len() - 1 ==> (#[trigger] transitions[i]).guard is Some
}

/// What is wrong with the order of the transitions that the state `state`
/// offers for one event: the transition that follows the first unguarded
/// one is unreachable if it has a guard, and a duplicate if it has none.
pub open spec fn bundle_violation(state: Seq<char>, mapping: EventMappingView) -> Option<
    ViolationView,
> {
    if exists|u: int| catch_all_before_end(mapping.transitions, u) {
        let u = choose|u: int| catch_all_before_end(mapping.transitions, u);
        match mapping.transitions[u + 1].guard {
            Some(expr) => Some(
                ViolationView::UnreachableTransition {
                    state,
                    event: mapping.event,
                    guard: expr.text(),
                },
            ),
            None => Some(ViolationView::DuplicateTransition { state, event: mapping.event }),
        }
    } else {
        None
    }
}

/// The first of `items` that is there, if any is.
pub open spec fn first_some<A>(items: Seq<Option<A>>) -> Option<A>
    decreases items.len(),
{
    if items.len() == 0 {
        None
    } else if items.first() is Some {
        items.first()
    } else {
        first_some(items.drop_first())
    }
}

/// For each bundle that leaves a state, what is wrong with its order.
pub open spec fn bundle_violations(
    state: (Seq<char>, Seq<(Seq<char>, EventMappingView)>),
) -> Seq<Option<ViolationView>> {
    state.1.map_values(|bundle: (Seq<char>, EventMappingView)| bundle_violation(state.0, bundle.1))
}

/// For each state, what is wrong with the first of its bundles that is out
/// of order.
pub open spec fn state_violations(sm: MachineView) -> Seq<Option<ViolationView>> {
    sm.states_events_mapping.map_values(
        |state: (Seq<char>, Seq<(Seq<char>, EventMappingView)>)|
            first_some(bundle_violations(state)),
    )
}

/// What is wrong with the first bundle that is out of order, going through
/// the states in the order of the description and through the bundles of
/// each in theirs.
pub open spec fn reachability_violation(sm: MachineView) -> Option<ViolationView> {
    first_some(state_violations(sm))
}

/// In every bundle of the description, every transition but the last has a
/// guard.
pub open spec fn all_well_ordered(sm: MachineView) -> bool {
    forall|i: int, j: int|
        0 <= i < sm.states_events_mapping.len() && 0 <= j < sm.states_events_mapping[i].1.len()
            ==> well_ordered((#[trigger] sm.states_events_mapping[i].1[j]).1.transitions)
}

/// At most one position is the first unguarded one before the end.
pub(crate) proof fn lemma_catch_all_unique(transitions: Seq<TransitionView>, u: int)
    requires
        catch_all_before_end(transitions, u),
    ensures
        (choose|c: int| catch_all_before_end(transitions, c)) == u,
{
}

/// A bundle has nothing wrong with its order exactly when every transition
/// but the last has a guard.
pub(crate) proof fn lemma_bundle_ok_iff_well_ordered(state: Seq<char>, mapping: EventMappingView)
    ensures
        bundle_violation(state, mapping) is None <==> well_ordered(mapping.transitions),
{
    let transitions = mapping.transitions;
    if !well_ordered(transitions) {
        let i = choose|i: int|
            0 <= i < transitions.len() - 1 && !((#[trigger] transitions[i]).guard is Some);
        lemma_first_unguarded(transitions, i);
    }
}

/// Where a transition before the last has no guard, there is a first such.
proof fn lemma_first_unguarded(transitions: Seq<TransitionView>, i: int)
    requires
        0 <= i < transitions.len() - 1,
        transitions[i].guard is None,
    ensures
        exists|u: int| catch_all_before_end(transitions, u),
    decreases i,
{
    if exists|h: int| 0 <= h < i && (#[trigger] transitions[h]).guard is None {
        let h = choose|h: int| 0 <= h < i && (#[trigger] transitions[h]).guard is None;
        lemma_first_unguarded(transitions, h);
    } else {
        assert(catch_all_before_end(transitions, i));
    }
}

/// Items that are not there do not count for the first that is there.
pub(crate) proof fn lemma_first_some_skips<A>(items: Seq<Option<A>>, n: int)
    requires
        0 <= n <= items.len(),
        forall|h: int| 0 <= h < n ==> (#[trigger] items[h]) is None,
    ensures
        first_some(items) == first_some(items.skip(n)),
    decreases n,
{
    if n == 0 {
        assert(items.skip(0) =~= items);
    } else {
        lemma_first_some_skips(items.drop_first(), n - 1);
        assert(items.drop_first().skip(n - 1) =~= items.skip(n));
    }
}

/// Checks the order of the transitions that `state` offers for one event.
/// A bundle of fewer than two transitions has nothing to check.
fn check_bundle_order(state: &str, mapping: &EventMapping) -> (outcome: Result<(), Violation>)
    ensures
        found(outcome) == bundle_violation(state@, mapping@),
{
    let ghost transitions = mapping@.transitions;
    if mapping.transitions.len() > 1 {
        let mut unguarded_count: usize = 0;
        let mut k: usize = 0;
        while k < mapping.transitions.len()
            invariant
                k <= mapping.transitions.len(),
                transitions == mapping@.transitions,
                unguarded_count <= 1,
                unguarded_count == 0 ==> forall|i: int|
                    0 <= i < k ==> (#[trigger] transitions[i]).guard is Some,
                unguarded_count == 1 ==> k >= 1 && transitions[k - 1].guard is None && forall|
                    i: int,
                | 0 <= i < k - 1 ==> (#[trigger] transitions[i]).guard is Some,
            decreases mapping.transitions.len() - k,
        {
            let transition = &mapping.transitions[k];
            if let Some(guard) = &transition.guard {
                if unguarded_count > 0 {
                    proof {
                        lemma_catch_all_unique(transitions, k - 1);
                    }
                    return Err(
                        Violation::UnreachableTransition {
                            state: String::from_str(state),
                            event: mapping.event.clone(),
                            guard: guard.text(),
                        },
                    );
                }
            } else {
                unguarded_count += 1;
                if unguarded_count > 1 {
                    proof {
                        lemma_catch_all_unique(transitions, k - 1);
                    }
                    return Err(
                        Violation::DuplicateTransition {
                            state: String::from_str(state),
                            event: mapping.event.clone(),
                        },
                    );
                }
            }
            k += 1;
        }
    }
    Ok(())
}

/// Checks that no transition stands behind one that is always taken.
///
/// The transitions that a state offers for an event are tried in the order
/// in which they were declared, and one without a guard is always taken. So
/// among several transitions only the last may be without a guard. The
/// states are gone through in the order of the description, the bundles of
/// each in theirs, and the first bundle that is out of order is reported: a
/// guarded transition behind an unguarded one as unreachable, a second
/// unguarded one as a duplicate.
pub fn validate_unreachable_transitions(sm: &ParsedStateMachine) -> (outcome: Result<
    (),
    Violation,
>)
    ensures
        found(outcome) == reachability_violation(sm@),
        outcome is Ok <==> all_well_ordered(sm@),
{
    proof {
        order_is_accepted_iff_well_ordered(sm@);
    }
    let ghost by_state = state_violations(sm@);
    let mut i: usize = 0;
    while i < sm.states_events_mapping.len()
        invariant
            i <= sm.states_events_mapping.len(),
            by_state == state_violations(sm@),
            forall|h: int| 0 <= h < i ==> (#[trigger] by_state[h]) is None,
        decreases sm.states_events_mapping.len() - i,
    {
        let in_state = &sm.states_events_mapping[i].0;
        let event_mappings = &sm.states_events_mapping[i].1;
        let ghost state = sm@.states_events_mapping[i as int];
        let ghost by_bundle = bundle_violations(state);
        let mut j: usize = 0;
        while j < event_mappings.len()
            invariant
                j <= event_mappings.len(),
                state.0 == in_state@,
                state.1 == event_mappings.deep_view(),
                by_bundle == bundle_violations(state),
                by_state == state_violations(sm@),
                i < sm.states_events_mapping.len(),
                state == sm@.states_events_mapping[i as int],
                forall|h: int| 0 <= h < i ==> (#[trigger] by_state[h]) is None,
                forall|h: int| 0 <= h < j ==> (#[trigger] by_bundle[h]) is None,
            decreases event_mappings.len() - j,
        {
            let event_mapping = &event_mappings[j].1;
            let outcome = check_bundle_order(in_state.as_str(), event_mapping);
            if let Err(violation) = outcome {
                proof {
                    lemma_first_some_skips(by_bundle, j as int);
                    lemma_first_some_skips(by_state, i as int);
                }
                return Err(violation);
            }
            j += 1;
        }
        proof {
            lemma_first_some_skips(by_bundle, j as int);
        }
        i += 1;
    }
    proof {
        lemma_first_some_skips(by_state, i as int);
    }
    Ok(())
}

} // verus!
