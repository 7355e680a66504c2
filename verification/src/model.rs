//! The parsed description of a state machine, and its mathematical view.

use crate::syntax::type_syntax;
use vstd::hash_map::StringHashMap;
use vstd::prelude::*;

verus! {

/// A reference to a named callable (an action or a guard) and how it is invoked.
#[derive(Debug)]
pub struct AsyncIdent {
    /// The callable's identifier.
    pub ident: String,
    /// Whether the callable is invoked asynchronously.
    pub is_async: bool,
}

/// View of an [`AsyncIdent`].
pub struct AsyncIdentView {
    pub ident: Seq<char>,
    pub is_async: bool,
}

impl View for AsyncIdent {
    type V = AsyncIdentView;

    open spec fn view(&self) -> AsyncIdentView {
        AsyncIdentView { ident: self.ident@, is_async: self.is_async }
    }
}

impl DeepView for AsyncIdent {
    type V = AsyncIdentView;

    open spec fn deep_view(&self) -> AsyncIdentView {
        self@
    }
}

/// A boolean combination of named guards.
#[derive(Debug)]
pub enum GuardExpression {
    /// A single named guard.
    Guard(AsyncIdent),
    /// The negation of an expression.
    Not(Box<GuardExpression>),
    /// An expression in parentheses.
    Group(Box<GuardExpression>),
    /// Both expressions hold.
    And(Box<GuardExpression>, Box<GuardExpression>),
    /// At least one of the expressions holds.
    Or(Box<GuardExpression>, Box<GuardExpression>),
}

/// View of a [`GuardExpression`].
pub enum GuardExpressionView {
    Guard(AsyncIdentView),
    Not(Box<GuardExpressionView>),
    Group(Box<GuardExpressionView>),
    And(Box<GuardExpressionView>, Box<GuardExpressionView>),
    Or(Box<GuardExpressionView>, Box<GuardExpressionView>),
}

impl View for GuardExpression {
    type V = GuardExpressionView;

    open spec fn view(&self) -> GuardExpressionView
        decreases self,
    {
        match self {
            GuardExpression::Guard(guard) => GuardExpressionView::Guard(guard@),
            GuardExpression::Not(inner) => GuardExpressionView::Not(Box::new((**inner).view())),
            GuardExpression::Group(inner) => GuardExpressionView::Group(
                Box::new((**inner).view()),
            ),
            GuardExpression::And(left, right) => GuardExpressionView::And(
                Box::new((**left).view()),
                Box::new((**right).view()),
            ),
            GuardExpression::Or(left, right) => GuardExpressionView::Or(
                Box::new((**left).view()),
                Box::new((**right).view()),
            ),
        }
    }
}

impl DeepView for GuardExpression {
    type V = GuardExpressionView;

    open spec fn deep_view(&self) -> GuardExpressionView {
        self@
    }
}

/// One alternative among the transitions that a state offers for an event.
#[derive(Debug)]
pub struct Transition {
    /// The condition under which the transition is taken; `None` for a
    /// transition that is always taken.
    pub guard: Option<GuardExpression>,
    /// The callable that runs when the transition is taken.
    pub action: Option<AsyncIdent>,
    /// The state that the machine is in afterwards.
    pub out_state: String,
}

/// View of a [`Transition`].
pub struct TransitionView {
    pub guard: Option<GuardExpressionView>,
    pub action: Option<AsyncIdentView>,
    pub out_state: Seq<char>,
}

impl View for Transition {
    type V = TransitionView;

    open spec fn view(&self) -> TransitionView {
        TransitionView {
            guard: self.guard.deep_view(),
            action: self.action.deep_view(),
            out_state: self.out_state@,
        }
    }
}

impl DeepView for Transition {
    type V = TransitionView;

    open spec fn deep_view(&self) -> TransitionView {
        self@
    }
}

/// The transitions that one state offers for one event, in the order in
/// which they were declared, which is the order in which they are tried.
#[derive(Debug)]
pub struct EventMapping {
    /// The event that triggers the transitions.
    pub event: String,
    /// The alternatives, first declared first.
    pub transitions: Vec<Transition>,
}

/// View of an [`EventMapping`].
pub struct EventMappingView {
    pub event: Seq<char>,
    pub transitions: Seq<TransitionView>,
}

impl View for EventMapping {
    type V = EventMappingView;

    open spec fn view(&self) -> EventMappingView {
        EventMappingView { event: self.event@, transitions: self.transitions.deep_view() }
    }
}

impl DeepView for EventMapping {
    type V = EventMappingView;

    open spec fn deep_view(&self) -> EventMappingView {
        self@
    }
}

/// The data types that states, or events, carry, by name.
pub struct DataDefinitions {
    data_types: StringHashMap<syn::Type>,
}

impl View for DataDefinitions {
    type V = Map<Seq<char>, Seq<char>>;

    /// From each name that carries data to the syntax of its data type.
    closed spec fn view(&self) -> Map<Seq<char>, Seq<char>> {
        self.data_types@.map_values(|ty: syn::Type| type_syntax(ty))
    }
}

impl DataDefinitions {
    /// No name carries data.
    pub fn new() -> (definitions: Self)
        ensures
            definitions@ == Map::<Seq<char>, Seq<char>>::empty(),
    {
        let definitions = DataDefinitions { data_types: StringHashMap::new() };
        definitions
    }

    /// Gives `name` the data type `ty`, in place of any it had.
    pub fn insert(&mut self, name: &str, ty: syn::Type)
        ensures
            final(self)@ == old(self)@.insert(name@, type_syntax(ty)),
    {
        self.data_types.insert(String::from_str(name), ty);
    }

    /// The data type of `name`, if it carries data.
    pub fn get(&self, name: &str) -> (ty: Option<&syn::Type>)
        ensures
            crate::syntax::opt_type_syntax(ty) == self@.get(name@),
    {
        self.data_types.get(name)
    }
}

/// A state machine as its description was parsed.
pub struct ParsedStateMachine {
    /// The data type of each state that carries data.
    pub state_data: DataDefinitions,
    /// The data type of each event that carries data.
    pub event_data: DataDefinitions,
    /// For each source state, in the order of declaration, the bundles of
    /// transitions that leave it, each filed under the name of a target
    /// state: the data of that state is what an action of the bundle hands
    /// back.
    pub states_events_mapping: Vec<(String, Vec<(String, EventMapping)>)>,
}

/// View of a [`ParsedStateMachine`].
pub struct MachineView {
    pub state_data: Map<Seq<char>, Seq<char>>,
    pub event_data: Map<Seq<char>, Seq<char>>,
    pub states_events_mapping: Seq<(Seq<char>, Seq<(Seq<char>, EventMappingView)>)>,
}

impl View for ParsedStateMachine {
    type V = MachineView;

    open spec fn view(&self) -> MachineView {
        MachineView {
            state_data: self.state_data@,
            event_data: self.event_data@,
            states_events_mapping: self.states_events_mapping.deep_view(),
        }
    }
}

} // verus!
