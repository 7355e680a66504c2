//! What holds of every description, whatever it contains.

use crate::{coherent, first_violation};
use crate::model::{AsyncIdentView, EventMappingView, GuardExpressionView, MachineView};
use crate::reachability::{
    all_well_ordered, bundle_violation, bundle_violations, catch_all_before_end, first_some,
    lemma_bundle_ok_iff_well_ordered, lemma_catch_all_unique, reachability_violation,
    state_violations, well_ordered,
};
use crate::sequences::{lemma_flatten_contains, lemma_flatten_origin, lemma_joined_contains};
use crate::signature::{call_signature, SignatureView};
use crate::sites::{
    clash, conflicts_at, consistent, guard_site, guard_sites, is_first_conflict,
    lemma_consistent_iff_no_conflict, lemma_some_conflict_has_first, signature_violation,
    transitions_sites, CallSite, Callable,
};
use crate::violation::ViolationView;
use vstd::prelude::*;

verus! {

/// A place in a description: the transition at position `transition` of the
/// bundle at position `bundle` of the state at position `state`.
pub struct Place {
    pub state: int,
    pub bundle: int,
    pub transition: int,
}

impl MachineView {
    /// Whether the description has a transition at `place`.
    pub open spec fn has(self, place: Place) -> bool {
        &&& 0 <= place.state < self.states_events_mapping.len()
        &&& 0 <= place.bundle < self.states_events_mapping[place.state].1.len()
        &&& 0 <= place.transition
            < self.states_events_mapping[place.state].1[place.bundle].1.transitions.len()
    }

    /// The name of the state that the transition at `place` leaves.
    pub open spec fn source_at(self, place: Place) -> Seq<char> {
        self.states_events_mapping[place.state].0
    }

    /// The name of the state that the bundle at `place` is filed under.
    pub open spec fn target_at(self, place: Place) -> Seq<char> {
        self.states_events_mapping[place.state].1[place.bundle].0
    }

    /// The bundle that the transition at `place` belongs to.
    pub open spec fn mapping_at(self, place: Place) -> EventMappingView {
        self.states_events_mapping[place.state].1[place.bundle].1
    }

    /// The action of the transition at `place`, if it has one.
    pub open spec fn action_at(self, place: Place) -> Option<AsyncIdentView> {
        self.mapping_at(place).transitions[place.transition].action
    }

    /// The guard expression of the transition at `place`, if it has one.
    pub open spec fn guard_at(self, place: Place) -> Option<GuardExpressionView> {
        self.mapping_at(place).transitions[place.transition].guard
    }

    /// The signature that a use at `place` gives to an action that is called
    /// as `is_async` says.
    pub open spec fn action_signature_at(self, place: Place, is_async: bool) -> SignatureView {
        call_signature(
            self.state_data.get(self.source_at(place)),
            self.event_data.get(self.mapping_at(place).event),
            self.state_data.get(self.target_at(place)),
            is_async,
        )
    }

    /// The use that the transition at `place` makes of its action.
    pub open spec fn action_site_at(self, place: Place) -> CallSite {
        CallSite {
            name: self.action_at(place)->0.ident,
            signature: self.action_signature_at(place, self.action_at(place)->0.is_async),
        }
    }

    /// The uses that each transition of the bundle at `place` makes.
    pub open spec fn sites_by_transition(self, kind: Callable, place: Place) -> Seq<Seq<CallSite>> {
        transitions_sites(
            kind,
            self.state_data.get(self.source_at(place)),
            self.event_data.get(self.mapping_at(place).event),
            self.state_data.get(self.target_at(place)),
            self.mapping_at(place).transitions,
        )
    }

    /// The use that the transition at `place` makes of `guard`.
    pub open spec fn guard_site_at(self, place: Place, guard: AsyncIdentView) -> CallSite {
        guard_site(
            self.state_data.get(self.source_at(place)),
            self.event_data.get(self.mapping_at(place).event),
            guard,
        )
    }
}

/// The uses that the transition at `place` makes are among the uses of the
/// description.
proof fn lemma_place_sites_are_checked(
    sm: MachineView,
    kind: Callable,
    place: Place,
    site: CallSite,
)
    requires
        sm.has(place),
        sm.sites_by_transition(kind, place)[place.transition].contains(site),
    ensures
        sm.sites(kind).contains(site),
{
    let state = sm.states_events_mapping[place.state];
    lemma_flatten_contains(sm.sites_by_transition(kind, place), place.transition, site);
    lemma_flatten_contains(sm.sites_by_bundle(kind, state), place.bundle, site);
    lemma_flatten_contains(sm.sites_by_state(kind), place.state, site);
}

/// Each use of the description is made by a transition at some place.
proof fn lemma_checked_site_has_a_place(sm: MachineView, kind: Callable, site: CallSite)
    requires
        sm.sites(kind).contains(site),
    ensures
        exists|place: Place| #[trigger]
            sm.has(place) && sm.sites_by_transition(kind, place)[place.transition].contains(site),
{
    let by_state = sm.sites_by_state(kind);
    lemma_flatten_origin(by_state, site);
    let i = choose|i: int| 0 <= i < by_state.len() && (#[trigger] by_state[i]).contains(site);
    let state = sm.states_events_mapping[i];
    let by_bundle = sm.sites_by_bundle(kind, state);
    lemma_flatten_origin(by_bundle, site);
    let j = choose|j: int| 0 <= j < by_bundle.len() && (#[trigger] by_bundle[j]).contains(site);
    let start = Place { state: i, bundle: j, transition: 0 };
    let by_transition = sm.sites_by_transition(kind, start);
    lemma_flatten_origin(by_transition, site);
    let k = choose|k: int|
        0 <= k < by_transition.len() && (#[trigger] by_transition[k]).contains(site);
    let place = Place { state: i, bundle: j, transition: k };
    assert(sm.has(place));
}

/// A guard is written in an expression, at whatever depth, exactly when it
/// is among the guards that a traversal of the expression is shown.
pub proof fn mentioned_guards_are_visited(expr: GuardExpressionView, guard: AsyncIdentView)
    ensures
        expr.mentions(guard) <==> expr.guards().contains(guard),
    decreases expr,
{
    match expr {
        GuardExpressionView::Guard(leaf) => {
            assert(seq![leaf][0] == leaf);
        },
        GuardExpressionView::Not(inner) => {
            mentioned_guards_are_visited(*inner, guard);
        },
        GuardExpressionView::Group(inner) => {
            mentioned_guards_are_visited(*inner, guard);
        },
        GuardExpressionView::And(left, right) => {
            mentioned_guards_are_visited(*left, guard);
            mentioned_guards_are_visited(*right, guard);
            lemma_joined_contains(left.guards(), right.guards(), guard);
        },
        GuardExpressionView::Or(left, right) => {
            mentioned_guards_are_visited(*left, guard);
            mentioned_guards_are_visited(*right, guard);
            lemma_joined_contains(left.guards(), right.guards(), guard);
        },
    }
}

/// The action of every transition is checked: its use, with the signature
/// that the place gives it, is among the uses that the check of the actions
/// goes through.
pub proof fn every_action_is_checked(sm: MachineView, place: Place)
    requires
        sm.has(place),
        sm.action_at(place) is Some,
    ensures
        sm.sites(Callable::Action).contains(sm.action_site_at(place)),
{
    let site = sm.action_site_at(place);
    assert(sm.sites_by_transition(Callable::Action, place)[place.transition][0] == site);
    lemma_place_sites_are_checked(sm, Callable::Action, place, site);
}

/// Nothing but the actions of the transitions is checked: each use that the
/// check of the actions goes through is that of the action of a transition.
pub proof fn every_checked_action_is_used(sm: MachineView, site: CallSite)
    requires
        sm.sites(Callable::Action).contains(site),
    ensures
        exists|place: Place| #[trigger]
            sm.has(place) && sm.action_at(place) is Some && sm.action_site_at(place) == site,
{
    lemma_checked_site_has_a_place(sm, Callable::Action, site);
}

/// No guard is passed over for the depth at which it stands: the use of
/// every guard that is written anywhere in the guard expression of a
/// transition is among the uses that the check of the guards goes through.
pub proof fn every_guard_is_checked(sm: MachineView, place: Place, guard: AsyncIdentView)
    requires
        sm.has(place),
        sm.guard_at(place) is Some,
        sm.guard_at(place)->0.mentions(guard),
    ensures
        sm.sites(Callable::Guard).contains(sm.guard_site_at(place, guard)),
{
    let expr = sm.guard_at(place)->0;
    let site = sm.guard_site_at(place, guard);
    mentioned_guards_are_visited(expr, guard);
    let n = choose|n: int| 0 <= n < expr.guards().len() && expr.guards()[n] == guard;
    assert(sm.sites_by_transition(Callable::Guard, place)[place.transition][n] == site);
    lemma_place_sites_are_checked(sm, Callable::Guard, place, site);
}

/// Nothing but the guards of the transitions is checked: each use that the
/// check of the guards goes through is that of a guard written in the guard
/// expression of a transition.
pub proof fn every_checked_guard_is_used(sm: MachineView, site: CallSite)
    requires
        sm.sites(Callable::Guard).contains(site),
    ensures
        exists|place: Place, guard: AsyncIdentView| #[trigger]
            sm.has(place) && sm.guard_at(place) is Some && sm.guard_at(place)->0.mentions(guard)
                && #[trigger] sm.guard_site_at(place, guard) == site,
{
    lemma_checked_site_has_a_place(sm, Callable::Guard, site);
    let place = choose|place: Place| #[trigger]
        sm.has(place) && sm.sites_by_transition(Callable::Guard, place)[place.transition].contains(
            site,
        );
    let block = sm.sites_by_transition(Callable::Guard, place)[place.transition];
    let n = choose|n: int| 0 <= n < block.len() && block[n] == site;
    let expr = sm.guard_at(place)->0;
    let guard = expr.guards()[n];
    mentioned_guards_are_visited(expr, guard);
    assert(sm.has(place) && sm.guard_site_at(place, guard) == site);
}

/// Two uses of one callable with different signatures, wherever they stand
/// among the uses, make the check fail, and the callable that the check
/// names is one that is used with two signatures.
pub proof fn clashing_uses_are_rejected(
    kind: Callable,
    sites: Seq<CallSite>,
    one: CallSite,
    other: CallSite,
)
    requires
        sites.contains(one),
        sites.contains(other),
        clash(one, other),
    ensures
        signature_violation(kind, sites) is Some,
        exists|a: int, b: int|
            0 <= a < b < sites.len() && clash(#[trigger] sites[a], #[trigger] sites[b])
                && signature_violation(kind, sites) == Some(kind.inconsistent(sites[b].name)),
{
    let m = choose|m: int| 0 <= m < sites.len() && sites[m] == one;
    let n = choose|n: int| 0 <= n < sites.len() && sites[n] == other;
    if m < n {
        lemma_some_conflict_has_first(sites, n);
    } else {
        lemma_some_conflict_has_first(sites, m);
    }
}

/// Where one callable only is used with different signatures, the check
/// names it.
pub proof fn the_clashing_callable_is_named(
    kind: Callable,
    sites: Seq<CallSite>,
    one: CallSite,
    other: CallSite,
)
    requires
        sites.contains(one),
        sites.contains(other),
        clash(one, other),
        forall|a: int, b: int|
            0 <= a < b < sites.len() && clash(#[trigger] sites[a], #[trigger] sites[b])
                ==> sites[b].name == one.name,
    ensures
        signature_violation(kind, sites) == Some(kind.inconsistent(one.name)),
{
    clashing_uses_are_rejected(kind, sites, one, other);
}

/// Where all uses of each callable give it one signature, the check
/// succeeds, and only then.
pub proof fn agreeing_uses_are_accepted(kind: Callable, sites: Seq<CallSite>)
    ensures
        signature_violation(kind, sites) is None <==> consistent(sites),
{
    lemma_consistent_iff_no_conflict(sites);
}

/// An action that two transitions use with different signatures makes the
/// check of the actions fail, and with it the validation, which reports
/// what that check found. The action named is one that is used with two
/// signatures; it is this one where no other is.
pub proof fn inconsistent_action_is_rejected(sm: MachineView, one: Place, other: Place)
    requires
        sm.has(one),
        sm.has(other),
        sm.action_at(one) is Some,
        sm.action_at(other) is Some,
        sm.action_at(one)->0.ident == sm.action_at(other)->0.ident,
        sm.action_site_at(one).signature != sm.action_site_at(other).signature,
    ensures
        signature_violation(Callable::Action, sm.sites(Callable::Action)) is Some,
        first_violation(sm) == signature_violation(Callable::Action, sm.sites(Callable::Action)),
        exists|a: int, b: int|
            0 <= a < b < sm.sites(Callable::Action).len() && clash(
                #[trigger] sm.sites(Callable::Action)[a],
                #[trigger] sm.sites(Callable::Action)[b],
            ) && first_violation(sm) == Some(
                ViolationView::InconsistentAction { action: sm.sites(Callable::Action)[b].name },
            ),
        (forall|a: int, b: int|
            0 <= a < b < sm.sites(Callable::Action).len() && clash(
                #[trigger] sm.sites(Callable::Action)[a],
                #[trigger] sm.sites(Callable::Action)[b],
            ) ==> sm.sites(Callable::Action)[b].name == sm.action_at(one)->0.ident)
            ==> first_violation(sm) == Some(
            ViolationView::InconsistentAction { action: sm.action_at(one)->0.ident },
        ),
{
    every_action_is_checked(sm, one);
    every_action_is_checked(sm, other);
    clashing_uses_are_rejected(
        Callable::Action,
        sm.sites(Callable::Action),
        sm.action_site_at(one),
        sm.action_site_at(other),
    );
}

/// Where every two transitions that use one action give it one signature,
/// the check of the actions succeeds.
pub proof fn consistent_actions_are_accepted(sm: MachineView)
    requires
        forall|one: Place, other: Place|
            #![trigger sm.has(one), sm.has(other)]
            sm.has(one) && sm.has(other) && sm.action_at(one) is Some && sm.action_at(other)
                is Some && sm.action_at(one)->0.ident == sm.action_at(other)->0.ident
                ==> sm.action_site_at(one).signature == sm.action_site_at(other).signature,
    ensures
        signature_violation(Callable::Action, sm.sites(Callable::Action)) is None,
{
    let sites = sm.sites(Callable::Action);
    assert forall|j: int, k: int| 0 <= j < k < sites.len() implies !clash(
        #[trigger] sites[j],
        #[trigger] sites[k],
    ) by {
        every_checked_action_is_used(sm, sites[j]);
        every_checked_action_is_used(sm, sites[k]);
    }
    lemma_consistent_iff_no_conflict(sites);
}

/// A guard that two transitions use with different signatures, at whatever
/// depth of their guard expressions, makes the check of the guards fail.
/// The guard named is one that is used with two signatures; it is this one
/// where no other is.
pub proof fn inconsistent_guard_is_rejected(
    sm: MachineView,
    one: Place,
    guard_one: AsyncIdentView,
    other: Place,
    guard_other: AsyncIdentView,
)
    requires
        sm.has(one),
        sm.has(other),
        sm.guard_at(one) is Some,
        sm.guard_at(other) is Some,
        sm.guard_at(one)->0.mentions(guard_one),
        sm.guard_at(other)->0.mentions(guard_other),
        guard_one.ident == guard_other.ident,
        sm.guard_site_at(one, guard_one).signature != sm.guard_site_at(
            other,
            guard_other,
        ).signature,
    ensures
        signature_violation(Callable::Guard, sm.sites(Callable::Guard)) is Some,
        exists|a: int, b: int|
            0 <= a < b < sm.sites(Callable::Guard).len() && clash(
                #[trigger] sm.sites(Callable::Guard)[a],
                #[trigger] sm.sites(Callable::Guard)[b],
            ) && signature_violation(Callable::Guard, sm.sites(Callable::Guard)) == Some(
                ViolationView::InconsistentGuard { guard: sm.sites(Callable::Guard)[b].name },
            ),
        (forall|a: int, b: int|
            0 <= a < b < sm.sites(Callable::Guard).len() && clash(
                #[trigger] sm.sites(Callable::Guard)[a],
                #[trigger] sm.sites(Callable::Guard)[b],
            ) ==> sm.sites(Callable::Guard)[b].name == guard_one.ident) ==> signature_violation(
            Callable::Guard,
            sm.sites(Callable::Guard),
        ) == Some(ViolationView::InconsistentGuard { guard: guard_one.ident }),
{
    every_guard_is_checked(sm, one, guard_one);
    every_guard_is_checked(sm, other, guard_other);
    clashing_uses_are_rejected(
        Callable::Guard,
        sm.sites(Callable::Guard),
        sm.guard_site_at(one, guard_one),
        sm.guard_site_at(other, guard_other),
    );
}

/// Where every two uses of one guard, at whatever depth, give it one
/// signature, the check of the guards succeeds.
pub proof fn consistent_guards_are_accepted(sm: MachineView)
    requires
        forall|one: Place, guard_one: AsyncIdentView, other: Place, guard_other: AsyncIdentView|
            #![trigger sm.guard_site_at(one, guard_one), sm.guard_site_at(other, guard_other)]
            sm.has(one) && sm.has(other) && sm.guard_at(one) is Some && sm.guard_at(other)
                is Some && sm.guard_at(one)->0.mentions(guard_one) && sm.guard_at(
                other,
            )->0.mentions(guard_other) && guard_one.ident == guard_other.ident
                ==> sm.guard_site_at(one, guard_one).signature == sm.guard_site_at(
                other,
                guard_other,
            ).signature,
    ensures
        signature_violation(Callable::Guard, sm.sites(Callable::Guard)) is None,
{
    let sites = sm.sites(Callable::Guard);
    assert forall|j: int, k: int| 0 <= j < k < sites.len() implies !clash(
        #[trigger] sites[j],
        #[trigger] sites[k],
    ) by {
        every_checked_guard_is_used(sm, sites[j]);
        every_checked_guard_is_used(sm, sites[k]);
    }
    lemma_consistent_iff_no_conflict(sites);
}

/// Two places of use that differ in the data of the state, of the event or
/// of the result, or in the way of calling, give different signatures,
/// unless the one has data for its state only and the other the same data
/// for its event only: then the types handed in are the same.
pub proof fn differing_data_gives_differing_signatures(
    input_one: Option<Seq<char>>,
    event_one: Option<Seq<char>>,
    output_one: Option<Seq<char>>,
    async_one: bool,
    input_other: Option<Seq<char>>,
    event_other: Option<Seq<char>>,
    output_other: Option<Seq<char>>,
    async_other: bool,
)
    requires
        (input_one, event_one, output_one, async_one) != (
            input_other,
            event_other,
            output_other,
            async_other,
        ),
        !(input_one is Some && event_one is None && input_other is None && event_other
            == input_one),
        !(input_other is Some && event_other is None && input_one is None && event_one
            == input_other),
    ensures
        call_signature(input_one, event_one, output_one, async_one) != call_signature(
            input_other,
            event_other,
            output_other,
            async_other,
        ),
{
    let one = call_signature(input_one, event_one, output_one, async_one);
    let other = call_signature(input_other, event_other, output_other, async_other);
    if one == other {
        if one.arguments.len() >= 1 {
            assert(one.arguments[0] == other.arguments[0]);
        }
        if one.arguments.len() >= 2 {
            assert(one.arguments[1] == other.arguments[1]);
        }
    }
}

/// Of two transitions for one state and event, the first must have a guard:
/// a guarded one behind an unguarded one is unreachable, a second unguarded
/// one a duplicate; a guarded one followed by any other is in order.
pub proof fn order_of_two_transitions(state: Seq<char>, mapping: EventMappingView)
    requires
        mapping.transitions.len() == 2,
    ensures
        bundle_violation(state, mapping) == (match (
            mapping.transitions[0].guard,
            mapping.transitions[1].guard,
        ) {
            (Some(_), _) => None,
            (None, Some(second)) => Some(
                ViolationView::UnreachableTransition {
                    state,
                    event: mapping.event,
                    guard: second.text(),
                },
            ),
            (None, None) => Some(
                ViolationView::DuplicateTransition { state, event: mapping.event },
            ),
        }),
{
    let transitions = mapping.transitions;
    if transitions[0].guard is None {
        lemma_catch_all_unique(transitions, 0);
    } else {
        lemma_bundle_ok_iff_well_ordered(state, mapping);
    }
}

/// A state and event with one transition, guarded or not, is always in
/// order, and so is one with none.
pub proof fn single_transition_is_in_order(state: Seq<char>, mapping: EventMappingView)
    requires
        mapping.transitions.len() <= 1,
    ensures
        bundle_violation(state, mapping) is None,
{
    lemma_bundle_ok_iff_well_ordered(state, mapping);
}

/// The order of the transitions of a description is accepted exactly when,
/// in every bundle, every transition but the last has a guard.
pub proof fn order_is_accepted_iff_well_ordered(sm: MachineView)
    ensures
        reachability_violation(sm) is None <==> all_well_ordered(sm),
{
    let states = sm.states_events_mapping;
    let by_state = state_violations(sm);
    lemma_first_some_none_iff(by_state);
    if reachability_violation(sm) is None {
        assert forall|i: int, j: int|
            0 <= i < states.len() && 0 <= j < states[i].1.len() implies well_ordered(
            (#[trigger] states[i].1[j]).1.transitions,
        ) by {
            assert(by_state[i] is None);
            lemma_first_some_none_iff(bundle_violations(states[i]));
            assert(bundle_violations(states[i])[j] is None);
            lemma_bundle_ok_iff_well_ordered(states[i].0, states[i].1[j].1);
        }
    } else {
        let i = choose|i: int| 0 <= i < by_state.len() && !((#[trigger] by_state[i]) is None);
        let by_bundle = bundle_violations(states[i]);
        lemma_first_some_none_iff(by_bundle);
        let j = choose|j: int| 0 <= j < by_bundle.len() && !((#[trigger] by_bundle[j]) is None);
        lemma_bundle_ok_iff_well_ordered(states[i].0, states[i].1[j].1);
    }
}

/// Nothing is first among items exactly when none of them is there.
proof fn lemma_first_some_none_iff<A>(items: Seq<Option<A>>)
    ensures
        first_some(items) is None <==> forall|h: int|
            0 <= h < items.len() ==> (#[trigger] items[h]) is None,
    decreases items.len(),
{
    if items.len() > 0 {
        lemma_first_some_none_iff(items.drop_first());
        if first_some(items) is None {
            assert forall|h: int| 0 <= h < items.len() implies (#[trigger] items[h]) is None by {
                if h > 0 {
                    assert(items.drop_first()[h - 1] == items[h]);
                }
            }
        }
    }
}

/// A violation that the check of the actions finds is the one that the
/// validation reports, whatever else is wrong with the description; one
/// that the check of the guards finds is reported when the actions are
/// consistent; and the order of the transitions is looked at last. The
/// validation reports nothing exactly when the description is coherent.
pub proof fn violations_are_reported_in_order(sm: MachineView)
    ensures
        signature_violation(Callable::Action, sm.sites(Callable::Action)) is Some
            ==> first_violation(sm) == signature_violation(
            Callable::Action,
            sm.sites(Callable::Action),
        ),
        signature_violation(Callable::Action, sm.sites(Callable::Action)) is None
            && signature_violation(Callable::Guard, sm.sites(Callable::Guard)) is Some
            ==> first_violation(sm) == signature_violation(
            Callable::Guard,
            sm.sites(Callable::Guard),
        ),
        signature_violation(Callable::Action, sm.sites(Callable::Action)) is None
            && signature_violation(Callable::Guard, sm.sites(Callable::Guard)) is None
            ==> first_violation(sm) == reachability_violation(sm),
        first_violation(sm) is None <==> coherent(sm),
{
    lemma_consistent_iff_no_conflict(sm.sites(Callable::Action));
    lemma_consistent_iff_no_conflict(sm.sites(Callable::Guard));
    order_is_accepted_iff_well_ordered(sm);
}

} // verus!
