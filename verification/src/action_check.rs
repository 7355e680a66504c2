//! Every action is used with one call signature.

use crate::model::{EventMapping, ParsedStateMachine};
use crate::signature::FunctionSignature;
use crate::sequences::lemma_flatten_around;
use crate::sites::{
    consistent, is_first_conflict, lemma_consistent_iff_no_conflict, lemma_first_conflict_unique,
    signature_violation, transitions_sites, CallSite, Callable,
};
use crate::syntax::opt_type_syntax;
use crate::tracker::{
    checked, lemma_checked_within, lemma_track_one, lemma_tracked_is_consistent, tracks,
    SignatureTracker,
};
use crate::violation::{found, Violation};
use vstd::prelude::*;

verus! {

/// Checks the actions of one bundle of transitions, in their order.
fn check_bundle_actions<'a>(
    input: Option<&'a syn::Type>,
    event: Option<&'a syn::Type>,
    output: Option<&'a syn::Type>,
    mapping: &EventMapping,
    actions: &mut SignatureTracker<'a>,
    Ghost(done): Ghost<Seq<CallSite>>,
) -> (outcome: Result<(), Violation>)
    requires
        tracks(old(actions)@, done),
    ensures
        checked(
            Callable::Action,
            done,
            transitions_sites(
                Callable::Action,
                opt_type_syntax(input),
                opt_type_syntax(event),
                opt_type_syntax(output),
                mapping@.transitions,
            ).flatten(),
            final(actions)@,
            found(outcome),
        ),
{
    let ghost blocks = transitions_sites(
        Callable::Action,
        opt_type_syntax(input),
        opt_type_syntax(event),
        opt_type_syntax(output),
        mapping@.transitions,
    );
    let mut k: usize = 0;
    while k < mapping.transitions.len()
        invariant
            k <= mapping.transitions.len(),
            blocks == transitions_sites(
                Callable::Action,
                opt_type_syntax(input),
                opt_type_syntax(event),
                opt_type_syntax(output),
                mapping@.transitions,
            ),
            tracks(actions@, done + blocks.take(k as int).flatten()),
        decreases mapping.transitions.len() - k,
    {
        let transition = &mapping.transitions[k];
        let ghost before = blocks.take(k as int).flatten();
        let ghost after = blocks.skip(k + 1).flatten();
        proof {
            lemma_flatten_around(blocks, k as int);
        }
        if let Some(action) = &transition.action {
            let signature = FunctionSignature::new(input, event, output, action.is_async);
            let ghost site = CallSite { name: action.ident@, signature: signature@ };
            let ghost seen = actions@;
            proof {
                lemma_track_one(Callable::Action, seen, done + before, site);
            }
            if !actions.check(action.ident.as_str(), signature) {
                let violation = Violation::InconsistentAction { action: action.ident.clone() };
                proof {
                    lemma_checked_within(
                        Callable::Action,
                        done,
                        before,
                        seq![site],
                        after,
                        seen,
                        found(Err::<(), Violation>(violation)),
                    );
                }
                return Err(violation);
            }
            proof {
                lemma_checked_within(
                    Callable::Action,
                    done,
                    before,
                    seq![site],
                    after,
                    actions@,
                    None,
                );
            }
        }
        k += 1;
    }
    assert(blocks.take(k as int) =~= blocks);
    Ok(())
}

/// Checks the actions of the bundles that leave the state at position `i`.
fn check_state_actions<'a>(
    sm: &'a ParsedStateMachine,
    i: usize,
    actions: &mut SignatureTracker<'a>,
    Ghost(done): Ghost<Seq<CallSite>>,
) -> (outcome: Result<(), Violation>)
    requires
        i < sm.states_events_mapping.len(),
        tracks(old(actions)@, done),
    ensures
        checked(
            Callable::Action,
            done,
            sm@.state_sites(Callable::Action, sm@.states_events_mapping[i as int]),
            final(actions)@,
            found(outcome),
        ),
{
    let in_state_name = &sm.states_events_mapping[i].0;
    let from_transitions = &sm.states_events_mapping[i].1;
    let in_state_data = sm.state_data.get(in_state_name.as_str());
    let ghost state = sm@.states_events_mapping[i as int];
    let ghost blocks = sm@.sites_by_bundle(Callable::Action, state);
    let mut j: usize = 0;
    while j < from_transitions.len()
        invariant
            j <= from_transitions.len(),
            state == sm@.states_events_mapping[i as int],
            state.0 == in_state_name@,
            state.1 == from_transitions.deep_view(),
            blocks == sm@.sites_by_bundle(Callable::Action, state),
            opt_type_syntax(in_state_data) == sm@.state_data.get(state.0),
            tracks(actions@, done + blocks.take(j as int).flatten()),
        decreases from_transitions.len() - j,
    {
        let out_state_name = &from_transitions[j].0;
        let event_mapping = &from_transitions[j].1;
        let out_state_data = sm.state_data.get(out_state_name.as_str());
        let event_data = sm.event_data.get(event_mapping.event.as_str());
        let ghost before = blocks.take(j as int).flatten();
        let ghost after = blocks.skip(j + 1).flatten();
        proof {
            lemma_flatten_around(blocks, j as int);
        }
        let outcome = check_bundle_actions(
            in_state_data,
            event_data,
            out_state_data,
            event_mapping,
            actions,
            Ghost(done + before),
        );
        proof {
            lemma_checked_within(
                Callable::Action,
                done,
                before,
                blocks[j as int],
                after,
                actions@,
                found(outcome),
            );
        }
        if let Err(violation) = outcome {
            return Err(violation);
        }
        j += 1;
    }
    assert(blocks.take(j as int) =~= blocks);
    Ok(())
}

/// Checks that every action is used with one call signature.
///
/// The places of use are gone through in the order of the description. The
/// signature of an action at a place of use is made of the data type of the
/// state that the transition leaves, the data type of its event, the data
/// type of the state that its bundle is filed under, and the way in which
/// the action is called. The check stops at the first use whose signature
/// differs from that of an earlier use of the same action, and names that
/// action.
pub fn validate_action_signatures(sm: &ParsedStateMachine) -> (outcome: Result<(), Violation>)
    ensures
        found(outcome) == signature_violation(Callable::Action, sm@.sites(Callable::Action)),
        outcome is Ok <==> consistent(sm@.sites(Callable::Action)),
{
    proof {
        lemma_consistent_iff_no_conflict(sm@.sites(Callable::Action));
    }
    let mut actions = SignatureTracker::new();
    let ghost blocks = sm@.sites_by_state(Callable::Action);
    let ghost nothing = Seq::<CallSite>::empty();
    let mut i: usize = 0;
    while i < sm.states_events_mapping.len()
        invariant
            i <= sm.states_events_mapping.len(),
            blocks == sm@.sites_by_state(Callable::Action),
            nothing == Seq::<CallSite>::empty(),
            tracks(actions@, nothing + blocks.take(i as int).flatten()),
        decreases sm.states_events_mapping.len() - i,
    {
        let ghost before = blocks.take(i as int).flatten();
        let ghost after = blocks.skip(i + 1).flatten();
        proof {
            lemma_flatten_around(blocks, i as int);
        }
        let outcome = check_state_actions(sm, i, &mut actions, Ghost(nothing + before));
        proof {
            lemma_checked_within(
                Callable::Action,
                nothing,
                before,
                blocks[i as int],
                after,
                actions@,
                found(outcome),
            );
        }
        if let Err(violation) = outcome {
            proof {
                let all = sm@.sites(Callable::Action);
                let k = choose|k: int|
                    is_first_conflict(all, k) && violation@
                        == Callable::Action.inconsistent((#[trigger] all[k]).name);
                lemma_first_conflict_unique(all, k);
            }
            return Err(violation);
        }
        i += 1;
    }
    proof {
        let all = sm@.sites(Callable::Action);
        assert(blocks.take(i as int) =~= blocks);
        lemma_tracked_is_consistent(actions@, all);
        lemma_consistent_iff_no_conflict(all);
    }
    Ok(())
}

} // verus!
