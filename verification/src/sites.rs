//! The places at which a description uses its actions and guards, in the
//! order of the description, and what it means for them to agree.

use crate::model::{AsyncIdentView, EventMappingView, MachineView, TransitionView};
use crate::signature::{call_signature, guard_signature, SignatureView};
use crate::violation::ViolationView;
use vstd::prelude::*;

verus! {

/// The two kinds of named callables of a description.
#[derive(Clone, Copy, Debug, PartialEq, Eq, Structural)]
pub enum Callable {
    Action,
    Guard,
}

impl Callable {
    /// The violation that reports an inconsistent use of the callable `name`.
    pub open spec fn inconsistent(self, name: Seq<char>) -> ViolationView {
        match self {
            Callable::Action => ViolationView::InconsistentAction { action: name },
            Callable::Guard => ViolationView::InconsistentGuard { guard: name },
        }
    }
}

/// One use of a named callable, with the signature that the use gives it.
pub struct CallSite {
    pub name: Seq<char>,
    pub signature: SignatureView,
}

/// Two uses of one callable that give it different signatures.
pub open spec fn clash(earlier: CallSite, later: CallSite) -> bool {
    earlier.name == later.name && earlier.signature != later.signature
}

/// The use at position `k` clashes with a use before it.
pub open spec fn conflicts_at(sites: Seq<CallSite>, k: int) -> bool {
    exists|j: int| 0 <= j < k && clash(#[trigger] sites[j], sites[k])
}

/// Position `k` is the first whose use clashes with a use before it.
pub open spec fn is_first_conflict(sites: Seq<CallSite>, k: int) -> bool {
    &&& 0 <= k < sites.len()
    &&& conflicts_at(sites, k)
    &&& forall|i: int| 0 <= i < k ==> !conflicts_at(sites, i)
}

/// The first position whose use clashes with a use before it, if any does.
pub open spec fn first_conflict(sites: Seq<CallSite>) -> Option<int> {
    if exists|k: int| is_first_conflict(sites, k) {
        Some(choose|k: int| is_first_conflict(sites, k))
    } else {
        None
    }
}

/// All uses of each callable give it one signature.
pub open spec fn consistent(sites: Seq<CallSite>) -> bool {
    forall|j: int, k: int|
        0 <= j < k < sites.len() ==> !clash(#[trigger] sites[j], #[trigger] sites[k])
}

/// What a check of the uses `sites` of callables of one kind reports: the
/// callable at the first position whose use clashes with an earlier one.
pub open spec fn signature_violation(kind: Callable, sites: Seq<CallSite>) -> Option<
    ViolationView,
> {
    match first_conflict(sites) {
        Some(k) => Some(kind.inconsistent(sites[k].name)),
        None => None,
    }
}

/// The use of `guard` where the state that is left and the event carry the
/// data `input` and `event`.
pub open spec fn guard_site(
    input: Option<Seq<char>>,
    event: Option<Seq<char>>,
    guard: AsyncIdentView,
) -> CallSite {
    CallSite { name: guard.ident, signature: guard_signature(input, event, guard.is_async) }
}

/// The uses of `guards`, in their order.
pub open spec fn guard_sites(
    input: Option<Seq<char>>,
    event: Option<Seq<char>>,
    guards: Seq<AsyncIdentView>,
) -> Seq<CallSite> {
    guards.map_values(|guard: AsyncIdentView| guard_site(input, event, guard))
}

/// The uses that one transition makes of callables of kind `kind`, where the
/// state that it leaves, its event and the state that its bundle is filed
/// under carry the data `input`, `event` and `output`: its action, or the
/// guards of its guard expression from left to right.
pub open spec fn transition_sites(
    kind: Callable,
    input: Option<Seq<char>>,
    event: Option<Seq<char>>,
    output: Option<Seq<char>>,
    transition: TransitionView,
) -> Seq<CallSite> {
    match kind {
        Callable::Action => match transition.action {
            Some(action) => seq![
                CallSite {
                    name: action.ident,
                    signature: call_signature(input, event, output, action.is_async),
                },
            ],
            None => Seq::empty(),
        },
        Callable::Guard => match transition.guard {
            Some(expr) => guard_sites(input, event, expr.guards()),
            None => Seq::empty(),
        },
    }
}

/// The uses that each transition of a bundle makes, transition by transition.
pub open spec fn transitions_sites(
    kind: Callable,
    input: Option<Seq<char>>,
    event: Option<Seq<char>>,
    output: Option<Seq<char>>,
    transitions: Seq<TransitionView>,
) -> Seq<Seq<CallSite>> {
    transitions.map_values(
        |transition: TransitionView| transition_sites(kind, input, event, output, transition),
    )
}

impl MachineView {
    /// The uses in the bundle `mapping` of transitions that leave the state
    /// `source` and that is filed under the state `target`.
    pub open spec fn bundle_sites(
        self,
        kind: Callable,
        source: Seq<char>,
        target: Seq<char>,
        mapping: EventMappingView,
    ) -> Seq<CallSite> {
        transitions_sites(
            kind,
            self.state_data.get(source),
            self.event_data.get(mapping.event),
            self.state_data.get(target),
            mapping.transitions,
        ).flatten()
    }

    /// The uses in the bundles that leave one source state, bundle by bundle.
    pub open spec fn sites_by_bundle(
        self,
        kind: Callable,
        state: (Seq<char>, Seq<(Seq<char>, EventMappingView)>),
    ) -> Seq<Seq<CallSite>> {
        state.1.map_values(
            |bundle: (Seq<char>, EventMappingView)|
                self.bundle_sites(kind, state.0, bundle.0, bundle.1),
        )
    }

    /// The uses in the bundles that leave one source state.
    pub open spec fn state_sites(
        self,
        kind: Callable,
        state: (Seq<char>, Seq<(Seq<char>, EventMappingView)>),
    ) -> Seq<CallSite> {
        self.sites_by_bundle(kind, state).flatten()
    }

    /// All uses of callables of kind `kind`, state by state.
    pub open spec fn sites_by_state(self, kind: Callable) -> Seq<Seq<CallSite>> {
        self.states_events_mapping.map_values(
            |state: (Seq<char>, Seq<(Seq<char>, EventMappingView)>)| self.state_sites(kind, state),
        )
    }

    /// All uses of callables of kind `kind`, in the order of the description:
    /// state by state, bundle by bundle, transition by transition.
    pub open spec fn sites(self, kind: Callable) -> Seq<CallSite> {
        self.sites_by_state(kind).flatten()
    }
}

/// At most one position is the first conflict.
pub(crate) proof fn lemma_first_conflict_unique(sites: Seq<CallSite>, k: int)
    requires
        is_first_conflict(sites, k),
    ensures
        first_conflict(sites) == Some(k),
{
}

/// Uses agree exactly when no position conflicts with an earlier one.
pub(crate) proof fn lemma_consistent_iff_no_conflict(sites: Seq<CallSite>)
    ensures
        consistent(sites) <==> first_conflict(sites) is None,
{
    if !consistent(sites) {
        let (j, k) = choose|j: int, k: int|
            0 <= j < k < sites.len() && clash(#[trigger] sites[j], #[trigger] sites[k]);
        lemma_some_conflict_has_first(sites, k);
    }
}

/// Where some position conflicts, some position is the first to do so.
pub(crate) proof fn lemma_some_conflict_has_first(sites: Seq<CallSite>, k: int)
    requires
        0 <= k < sites.len(),
        conflicts_at(sites, k),
    ensures
        exists|first: int| is_first_conflict(sites, first) && first <= k,
    decreases k,
{
    if exists|i: int| 0 <= i < k && conflicts_at(sites, i) {
        let i = choose|i: int| 0 <= i < k && conflicts_at(sites, i);
        lemma_some_conflict_has_first(sites, i);
    } else {
        assert(is_first_conflict(sites, k));
    }
}

/// A first conflict stays the first conflict when more uses follow.
pub(crate) proof fn lemma_first_conflict_extends(sites: Seq<CallSite>, more: Seq<CallSite>, k: int)
    requires
        is_first_conflict(sites, k),
    ensures
        is_first_conflict(sites + more, k),
        (sites + more)[k] == sites[k],
{
    let all = sites + more;
    let j = choose|j: int| 0 <= j < k && clash(#[trigger] sites[j], sites[k]);
    assert(clash(all[j], all[k]));
    assert forall|i: int| 0 <= i < k implies !conflicts_at(all, i) by {
        if conflicts_at(all, i) {
            let h = choose|h: int| 0 <= h < i && clash(#[trigger] all[h], all[i]);
            assert(conflicts_at(sites, i));
        }
    }
}

} // verus!
