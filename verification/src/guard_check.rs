//! Every guard is used with one call signature.

use crate::expression::{seeing_all, visit_guards, GuardVisitor};
use crate::model::{AsyncIdent, AsyncIdentView, EventMapping, ParsedStateMachine};
use crate::signature::{guard_signature, FunctionSignature, SignatureView};
use crate::sequences::lemma_flatten_around;
use crate::sites::{
    consistent, guard_site, guard_sites, is_first_conflict, lemma_consistent_iff_no_conflict,
    lemma_first_conflict_unique, signature_violation, transitions_sites, CallSite, Callable,
};
use crate::syntax::opt_type_syntax;
use crate::tracker::{
    checked, lemma_checked_within, lemma_track_one, lemma_tracked_is_consistent, tracks,
    SignatureTracker,
};
use crate::violation::{found, Violation, ViolationView};
use vstd::prelude::*;

verus! {

/// The visitor that checks each guard it is shown against the first use of
/// the same guard, with the data types of the bundle that it is in.
pub struct GuardSignatures<'a> {
    guards: SignatureTracker<'a>,
    input: Option<&'a syn::Type>,
    event: Option<&'a syn::Type>,
}

/// What a [`GuardSignatures`] keeps: the first signature of each guard met
/// so far, and the data that the state and the event at hand carry.
pub struct GuardSignaturesView {
    pub seen: Map<Seq<char>, SignatureView>,
    pub input: Option<Seq<char>>,
    pub event: Option<Seq<char>>,
}

impl<'a> GuardSignatures<'a> {
    /// A visitor that has met no guard.
    pub fn new() -> (visitor: Self)
        ensures
            visitor.memory() == (GuardSignaturesView {
                seen: Map::empty(),
                input: None,
                event: None,
            }),
    {
        GuardSignatures { guards: SignatureTracker::new(), input: None, event: None }
    }

    /// Moves on to a bundle whose state and event carry `input` and `event`.
    pub fn enter(&mut self, input: Option<&'a syn::Type>, event: Option<&'a syn::Type>)
        ensures
            final(self).memory() == (GuardSignaturesView {
                seen: old(self).memory().seen,
                input: opt_type_syntax(input),
                event: opt_type_syntax(event),
            }),
    {
        self.input = input;
        self.event = event;
    }
}

impl<'a> GuardVisitor for GuardSignatures<'a> {
    type Memory = GuardSignaturesView;

    closed spec fn memory(&self) -> GuardSignaturesView {
        GuardSignaturesView {
            seen: self.guards@,
            input: opt_type_syntax(self.input),
            event: opt_type_syntax(self.event),
        }
    }

    open spec fn seeing(memory: GuardSignaturesView, guard: AsyncIdentView) -> Result<
        GuardSignaturesView,
        ViolationView,
    > {
        let signature = guard_signature(memory.input, memory.event, guard.is_async);
        match memory.seen.get(guard.ident) {
            Some(first) => if first == signature {
                Ok(memory)
            } else {
                Err(ViolationView::InconsistentGuard { guard: guard.ident })
            },
            None => Ok(
                GuardSignaturesView { seen: memory.seen.insert(guard.ident, signature), ..memory },
            ),
        }
    }

    fn visit(&mut self, guard: &AsyncIdent) -> (outcome: Result<(), Violation>) {
        let signature = FunctionSignature::new_guard(self.input, self.event, guard.is_async);
        if self.guards.check(guard.ident.as_str(), signature) {
            Ok(())
        } else {
            Err(Violation::InconsistentGuard { guard: guard.ident.clone() })
        }
    }
}

/// Showing guards to the visitor checks their uses, in their order.
proof fn lemma_seeing_all_checks(
    memory: GuardSignaturesView,
    done: Seq<CallSite>,
    guards: Seq<AsyncIdentView>,
)
    requires
        tracks(memory.seen, done),
    ensures
        ({
            let (after, outcome) = seeing_all::<GuardSignatures>(memory, guards);
            &&& after.input == memory.input
            &&& after.event == memory.event
            &&& checked(
                Callable::Guard,
                done,
                guard_sites(memory.input, memory.event, guards),
                after.seen,
                outcome,
            )
        }),
    decreases guards.len(),
{
    let block = guard_sites(memory.input, memory.event, guards);
    if guards.len() > 0 {
        let guard = guards.first();
        let site = guard_site(memory.input, memory.event, guard);
        let rest = guard_sites(memory.input, memory.event, guards.drop_first());
        lemma_track_one(Callable::Guard, memory.seen, done, site);
        match GuardSignatures::seeing(memory, guard) {
            Ok(next) => {
                lemma_seeing_all_checks(next, done + seq![site], guards.drop_first());
                let (after, outcome) = seeing_all::<GuardSignatures>(next, guards.drop_first());
                lemma_checked_within(
                    Callable::Guard,
                    done,
                    seq![site],
                    rest,
                    Seq::empty(),
                    after.seen,
                    outcome,
                );
                assert(seq![site] + rest + Seq::<CallSite>::empty() =~= block);
            },
            Err(violation) => {
                lemma_checked_within(
                    Callable::Guard,
                    done,
                    Seq::empty(),
                    seq![site],
                    rest,
                    memory.seen,
                    Some(violation),
                );
                assert(Seq::<CallSite>::empty() + seq![site] + rest =~= block);
            },
        }
    }
}

/// Checks the guards of one bundle of transitions: transition by transition,
/// and in each guard expression from left to right.
fn check_bundle_guards<'a>(
    input: Option<&'a syn::Type>,
    event: Option<&'a syn::Type>,
    mapping: &EventMapping,
    visitor: &mut GuardSignatures<'a>,
    Ghost(output): Ghost<Option<Seq<char>>>,
    Ghost(done): Ghost<Seq<CallSite>>,
) -> (outcome: Result<(), Violation>)
    requires
        tracks(old(visitor).memory().seen, done),
    ensures
        checked(
            Callable::Guard,
            done,
            transitions_sites(
                Callable::Guard,
                opt_type_syntax(input),
                opt_type_syntax(event),
                output,
                mapping@.transitions,
            ).flatten(),
            final(visitor).memory().seen,
            found(outcome),
        ),
{
    let ghost blocks = transitions_sites(
        Callable::Guard,
        opt_type_syntax(input),
        opt_type_syntax(event),
        output,
        mapping@.transitions,
    );
    visitor.enter(input, event);
    let mut k: usize = 0;
    while k < mapping.transitions.len()
        invariant
            k <= mapping.transitions.len(),
            blocks == transitions_sites(
                Callable::Guard,
                opt_type_syntax(input),
                opt_type_syntax(event),
                output,
                mapping@.transitions,
            ),
            visitor.memory().input == opt_type_syntax(input),
            visitor.memory().event == opt_type_syntax(event),
            tracks(visitor.memory().seen, done + blocks.take(k as int).flatten()),
        decreases mapping.transitions.len() - k,
    {
        let transition = &mapping.transitions[k];
        let ghost before = blocks.take(k as int).flatten();
        let ghost after = blocks.skip(k + 1).flatten();
        proof {
            lemma_flatten_around(blocks, k as int);
        }
        if let Some(guard_expression) = &transition.guard {
            proof {
                lemma_seeing_all_checks(
                    visitor.memory(),
                    done + before,
                    guard_expression@.guards(),
                );
            }
            let outcome = visit_guards(guard_expression, visitor);
            proof {
                lemma_checked_within(
                    Callable::Guard,
                    done,
                    before,
                    blocks[k as int],
                    after,
                    visitor.memory().seen,
                    found(outcome),
                );
            }
            if let Err(violation) = outcome {
                return Err(violation);
            }
        }
        k += 1;
    }
    assert(blocks.take(k as int) =~= blocks);
    Ok(())
}

/// Checks the guards of the bundles that leave the state at position `i`.
fn check_state_guards<'a>(
    sm: &'a ParsedStateMachine,
    i: usize,
    visitor: &mut GuardSignatures<'a>,
    Ghost(done): Ghost<Seq<CallSite>>,
) -> (outcome: Result<(), Violation>)
    requires
        i < sm.states_events_mapping.len(),
        tracks(old(visitor).memory().seen, done),
    ensures
        checked(
            Callable::Guard,
            done,
            sm@.state_sites(Callable::Guard, sm@.states_events_mapping[i as int]),
            final(visitor).memory().seen,
            found(outcome),
        ),
{
    let in_state_name = &sm.states_events_mapping[i].0;
    let from_transitions = &sm.states_events_mapping[i].1;
    let in_state_data = sm.state_data.get(in_state_name.as_str());
    let ghost state = sm@.states_events_mapping[i as int];
    let ghost blocks = sm@.sites_by_bundle(Callable::Guard, state);
    let mut j: usize = 0;
    while j < from_transitions.len()
        invariant
            j <= from_transitions.len(),
            state == sm@.states_events_mapping[i as int],
            state.0 == in_state_name@,
            state.1 == from_transitions.deep_view(),
            blocks == sm@.sites_by_bundle(Callable::Guard, state),
            opt_type_syntax(in_state_data) == sm@.state_data.get(state.0),
            tracks(visitor.memory().seen, done + blocks.take(j as int).flatten()),
        decreases from_transitions.len() - j,
    {
        let event_mapping = &from_transitions[j].1;
        let event_data = sm.event_data.get(event_mapping.event.as_str());
        let ghost before = blocks.take(j as int).flatten();
        let ghost after = blocks.skip(j + 1).flatten();
        let ghost output = sm@.state_data.get(state.1[j as int].0);
        proof {
            lemma_flatten_around(blocks, j as int);
        }
        let outcome = check_bundle_guards(
            in_state_data,
            event_data,
            event_mapping,
            visitor,
            Ghost(output),
            Ghost(done + before),
        );
        proof {
            lemma_checked_within(
                Callable::Guard,
                done,
                before,
                blocks[j as int],
                after,
                visitor.memory().seen,
                found(outcome),
            );
        }
        if let Err(violation) = outcome {
            return Err(violation);
        }
        j += 1;
    }
    assert(blocks.take(j as int) =~= blocks);
    Ok(())
}

/// Checks that every guard is used with one call signature.
///
/// The places of use are gone through in the order of the description, and
/// every guard of a guard expression counts, at whatever depth it stands.
/// The signature of a guard at a place of use is made of the data type of
/// the state that the transition leaves, the data type of its event, and the
/// way in which the guard is called. The check stops at the first use whose
/// signature differs from that of an earlier use of the same guard, and
/// names that guard.
pub fn validate_guard_signatures(sm: &ParsedStateMachine) -> (outcome: Result<(), Violation>)
    ensures
        found(outcome) == signature_violation(Callable::Guard, sm@.sites(Callable::Guard)),
        outcome is Ok <==> consistent(sm@.sites(Callable::Guard)),
{
    proof {
        lemma_consistent_iff_no_conflict(sm@.sites(Callable::Guard));
    }
    let mut visitor = GuardSignatures::new();
    let ghost blocks = sm@.sites_by_state(Callable::Guard);
    let ghost nothing = Seq::<CallSite>::empty();
    let mut i: usize = 0;
    while i < sm.states_events_mapping.len()
        invariant
            i <= sm.states_events_mapping.len(),
            blocks == sm@.sites_by_state(Callable::Guard),
            nothing == Seq::<CallSite>::empty(),
            tracks(visitor.memory().seen, nothing + blocks.take(i as int).flatten()),
        decreases sm.states_events_mapping.len() - i,
    {
        let ghost before = blocks.take(i as int).flatten();
        let ghost after = blocks.skip(i + 1).flatten();
        proof {
            lemma_flatten_around(blocks, i as int);
        }
        let outcome = check_state_guards(sm, i, &mut visitor, Ghost(nothing + before));
        proof {
            lemma_checked_within(
                Callable::Guard,
                nothing,
                before,
                blocks[i as int],
                after,
                visitor.memory().seen,
                found(outcome),
            );
        }
        if let Err(violation) = outcome {
            proof {
                let all = sm@.sites(Callable::Guard);
                let k = choose|k: int|
                    is_first_conflict(all, k) && violation@ == Callable::Guard.inconsistent(
                        (#[trigger] all[k]).name,
                    );
                lemma_first_conflict_unique(all, k);
            }
            return Err(violation);
        }
        i += 1;
    }
    proof {
        let all = sm@.sites(Callable::Guard);
        assert(blocks.take(i as int) =~= blocks);
        lemma_tracked_is_consistent(visitor.memory().seen, all);
        lemma_consistent_iff_no_conflict(all);
    }
    Ok(())
}

} // verus!
