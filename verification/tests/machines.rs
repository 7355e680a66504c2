use smlang_validation::action_check::validate_action_signatures;
use smlang_validation::expression::visit_guards;
use smlang_validation::guard_check::{validate_guard_signatures, GuardSignatures};
use smlang_validation::model::{
    AsyncIdent, DataDefinitions, EventMapping, GuardExpression, ParsedStateMachine, Transition,
};
use smlang_validation::reachability::validate_unreachable_transitions;
use smlang_validation::tracker::SignatureTracker;
use smlang_validation::signature::FunctionSignature;
use smlang_validation::validate;
use smlang_validation::violation::Violation;

fn data(entries: &[(&str, &str)]) -> DataDefinitions {
    let mut definitions = DataDefinitions::new();
    for (name, ty) in entries {
        definitions.insert(name, syn::parse_str::<syn::Type>(ty).unwrap());
    }
    definitions
}

fn callable(name: &str) -> AsyncIdent {
    AsyncIdent { ident: name.to_string(), is_async: false }
}

fn awaited(name: &str) -> AsyncIdent {
    AsyncIdent { ident: name.to_string(), is_async: true }
}

fn guard(name: &str) -> GuardExpression {
    GuardExpression::Guard(callable(name))
}

fn both(left: GuardExpression, right: GuardExpression) -> GuardExpression {
    GuardExpression::And(Box::new(left), Box::new(right))
}

fn either(left: GuardExpression, right: GuardExpression) -> GuardExpression {
    GuardExpression::Or(Box::new(left), Box::new(right))
}

fn negated(inner: GuardExpression) -> GuardExpression {
    GuardExpression::Not(Box::new(inner))
}

fn grouped(inner: GuardExpression) -> GuardExpression {
    GuardExpression::Group(Box::new(inner))
}

fn transition(
    guard: Option<GuardExpression>,
    action: Option<AsyncIdent>,
    out_state: &str,
) -> Transition {
    Transition { guard, action, out_state: out_state.to_string() }
}

fn bundle(key: &str, event: &str, transitions: Vec<Transition>) -> (String, EventMapping) {
    (key.to_string(), EventMapping { event: event.to_string(), transitions })
}

fn state(
    name: &str,
    bundles: Vec<(String, EventMapping)>,
) -> (String, Vec<(String, EventMapping)>) {
    (name.to_string(), bundles)
}

fn machine(
    state_data: &[(&str, &str)],
    event_data: &[(&str, &str)],
    states: Vec<(String, Vec<(String, EventMapping)>)>,
) -> ParsedStateMachine {
    ParsedStateMachine {
        state_data: data(state_data),
        event_data: data(event_data),
        states_events_mapping: states,
    }
}

fn inconsistent_action(name: &str) -> Result<(), Violation> {
    Err(Violation::InconsistentAction { action: name.to_string() })
}

fn inconsistent_guard(name: &str) -> Result<(), Violation> {
    Err(Violation::InconsistentGuard { guard: name.to_string() })
}

const ACTION_BEGIN: &str =
    "Action `begin` can only be reused when all input states, events, and output states have the same data";

// The actions.

#[test]
fn empty_machine_is_valid() {
    let sm = machine(&[], &[], vec![]);
    assert_eq!(validate_action_signatures(&sm), Ok(()));
    assert_eq!(validate_guard_signatures(&sm), Ok(()));
    assert_eq!(validate_unreachable_transitions(&sm), Ok(()));
    assert!(validate(&sm).is_ok());
}

#[test]
fn action_reused_from_states_with_different_data_is_rejected() {
    let sm = machine(
        &[("Idle", "IdleData"), ("Paused", "PausedData")],
        &[("Start", "StartEvent")],
        vec![
            state(
                "Idle",
                vec![bundle(
                    "Running",
                    "Start",
                    vec![transition(None, Some(callable("begin")), "Running")],
                )],
            ),
            state(
                "Paused",
                vec![bundle(
                    "Running",
                    "Start",
                    vec![transition(None, Some(callable("begin")), "Running")],
                )],
            ),
        ],
    );
    assert_eq!(validate_action_signatures(&sm), inconsistent_action("begin"));
    assert_eq!(validate(&sm).unwrap_err().to_string(), ACTION_BEGIN);
}

#[test]
fn action_reused_from_states_with_the_same_data_is_accepted() {
    let sm = machine(
        &[("Idle", "Shared"), ("Paused", "Shared")],
        &[("Start", "StartEvent")],
        vec![
            state(
                "Idle",
                vec![bundle(
                    "Running",
                    "Start",
                    vec![transition(None, Some(callable("begin")), "Running")],
                )],
            ),
            state(
                "Paused",
                vec![bundle(
                    "Running",
                    "Start",
                    vec![transition(None, Some(callable("begin")), "Running")],
                )],
            ),
        ],
    );
    assert_eq!(validate_action_signatures(&sm), Ok(()));
    assert!(validate(&sm).is_ok());
}

#[test]
fn action_reused_with_different_event_data_is_rejected() {
    let sm = machine(
        &[],
        &[("Start", "StartEvent"), ("Stop", "StopEvent")],
        vec![state(
            "Idle",
            vec![
                bundle("Start", "Start", vec![transition(None, Some(callable("log")), "Running")]),
                bundle("Stop", "Stop", vec![transition(None, Some(callable("log")), "Idle")]),
            ],
        )],
    );
    assert_eq!(validate_action_signatures(&sm), inconsistent_action("log"));
}

#[test]
fn action_reused_where_one_event_has_no_data_is_rejected() {
    let sm = machine(
        &[],
        &[("Start", "StartEvent")],
        vec![state(
            "Idle",
            vec![
                bundle("Start", "Start", vec![transition(None, Some(callable("log")), "Running")]),
                bundle("Stop", "Stop", vec![transition(None, Some(callable("log")), "Idle")]),
            ],
        )],
    );
    assert_eq!(validate_action_signatures(&sm), inconsistent_action("log"));
}

#[test]
fn action_output_is_the_data_of_the_name_that_its_bundle_is_filed_under() {
    let sm = machine(
        &[("Running", "RunningData"), ("Done", "DoneData")],
        &[],
        vec![state(
            "Idle",
            vec![
                bundle(
                    "Running",
                    "Start",
                    vec![transition(None, Some(callable("make")), "Running")],
                ),
                bundle("Done", "Finish", vec![transition(None, Some(callable("make")), "Done")]),
            ],
        )],
    );
    assert_eq!(validate_action_signatures(&sm), inconsistent_action("make"));

    let same = machine(
        &[("Running", "Data"), ("Done", "Data")],
        &[],
        vec![state(
            "Idle",
            vec![
                bundle(
                    "Running",
                    "Start",
                    vec![transition(None, Some(callable("make")), "Running")],
                ),
                bundle("Done", "Finish", vec![transition(None, Some(callable("make")), "Done")]),
            ],
        )],
    );
    assert_eq!(validate_action_signatures(&same), Ok(()));
}

#[test]
fn action_called_plainly_and_awaited_is_rejected() {
    let sm = machine(
        &[],
        &[],
        vec![state(
            "Idle",
            vec![bundle(
                "Start",
                "Start",
                vec![
                    transition(Some(guard("g")), Some(callable("begin")), "Running"),
                    transition(None, Some(awaited("begin")), "Running"),
                ],
            )],
        )],
    );
    assert_eq!(validate_action_signatures(&sm), inconsistent_action("begin"));
}

#[test]
fn action_with_state_data_only_agrees_with_the_same_event_data_only() {
    let sm = machine(
        &[("Idle", "Payload")],
        &[("Stop", "Payload")],
        vec![
            state(
                "Idle",
                vec![bundle(
                    "Start",
                    "Start",
                    vec![transition(None, Some(callable("take")), "Running")],
                )],
            ),
            state(
                "Running",
                vec![bundle(
                    "Stop",
                    "Stop",
                    vec![transition(None, Some(callable("take")), "Idle")],
                )],
            ),
        ],
    );
    assert_eq!(validate_action_signatures(&sm), Ok(()));
}

#[test]
fn different_actions_may_have_different_signatures() {
    let sm = machine(
        &[("Idle", "IdleData"), ("Paused", "PausedData")],
        &[],
        vec![
            state(
                "Idle",
                vec![bundle(
                    "Running",
                    "Start",
                    vec![transition(None, Some(callable("begin")), "Running")],
                )],
            ),
            state(
                "Paused",
                vec![bundle(
                    "Start",
                    "Start",
                    vec![transition(None, Some(callable("resume")), "Running")],
                )],
            ),
        ],
    );
    assert_eq!(validate_action_signatures(&sm), Ok(()));
}

#[test]
fn the_first_action_found_inconsistent_is_named() {
    let sm = machine(
        &[("A", "AData"), ("B", "BData")],
        &[],
        vec![
            state(
                "A",
                vec![bundle(
                    "E",
                    "E",
                    vec![
                        transition(Some(guard("g")), Some(callable("first")), "A"),
                        transition(None, Some(callable("second")), "A"),
                    ],
                )],
            ),
            state(
                "B",
                vec![bundle(
                    "E",
                    "E",
                    vec![
                        transition(Some(guard("g")), Some(callable("second")), "B"),
                        transition(None, Some(callable("first")), "B"),
                    ],
                )],
            ),
        ],
    );
    assert_eq!(validate_action_signatures(&sm), inconsistent_action("second"));
}

#[test]
fn a_later_use_is_compared_with_the_first_use() {
    let sm = machine(
        &[("A", "X"), ("B", "X"), ("C", "Y")],
        &[],
        vec![
            state("A", vec![bundle("E", "E", vec![transition(None, Some(callable("act")), "A")])]),
            state("B", vec![bundle("E", "E", vec![transition(None, Some(callable("act")), "A")])]),
            state("C", vec![bundle("E", "E", vec![transition(None, Some(callable("act")), "A")])]),
        ],
    );
    assert_eq!(validate_action_signatures(&sm), inconsistent_action("act"));
}

#[test]
fn transitions_without_actions_are_not_checked() {
    let sm = machine(
        &[("A", "X"), ("B", "Y")],
        &[],
        vec![
            state("A", vec![bundle("E", "E", vec![transition(None, None, "B")])]),
            state("B", vec![bundle("E", "E", vec![transition(None, None, "A")])]),
        ],
    );
    assert_eq!(validate_action_signatures(&sm), Ok(()));
}

// The guards.

#[test]
fn guard_reused_from_states_with_different_data_is_rejected() {
    let sm = machine(
        &[("Idle", "IdleData"), ("Paused", "PausedData")],
        &[],
        vec![
            state(
                "Idle",
                vec![bundle(
                    "Start",
                    "Start",
                    vec![transition(Some(guard("is_ready")), None, "Running")],
                )],
            ),
            state(
                "Paused",
                vec![bundle(
                    "Start",
                    "Start",
                    vec![transition(Some(guard("is_ready")), None, "Running")],
                )],
            ),
        ],
    );
    assert_eq!(validate_guard_signatures(&sm), inconsistent_guard("is_ready"));
    assert_eq!(
        validate(&sm).unwrap_err().to_string(),
        "Guard `is_ready` can only be reused when all input states and events have the same data"
    );
}

#[test]
fn guard_reused_with_different_event_data_is_rejected() {
    let sm = machine(
        &[],
        &[("Start", "StartEvent"), ("Stop", "StopEvent")],
        vec![state(
            "Idle",
            vec![
                bundle("Start", "Start", vec![transition(Some(guard("ok")), None, "Running")]),
                bundle("Stop", "Stop", vec![transition(Some(guard("ok")), None, "Idle")]),
            ],
        )],
    );
    assert_eq!(validate_guard_signatures(&sm), inconsistent_guard("ok"));
}

#[test]
fn guard_reused_with_the_same_data_is_accepted() {
    let sm = machine(
        &[("Idle", "Shared"), ("Paused", "Shared")],
        &[("Start", "StartEvent")],
        vec![
            state(
                "Idle",
                vec![bundle(
                    "Start",
                    "Start",
                    vec![transition(Some(guard("is_ready")), None, "Running")],
                )],
            ),
            state(
                "Paused",
                vec![bundle(
                    "Start",
                    "Start",
                    vec![
                        transition(
                            Some(both(guard("is_ready"), guard("is_ready"))),
                            None,
                            "Running",
                        ),
                    ],
                )],
            ),
        ],
    );
    assert_eq!(validate_guard_signatures(&sm), Ok(()));
    assert!(validate(&sm).is_ok());
}

#[test]
fn guard_signature_does_not_depend_on_the_data_of_the_target() {
    let sm = machine(
        &[("Running", "RunningData"), ("Done", "DoneData")],
        &[],
        vec![state(
            "Idle",
            vec![
                bundle("Running", "Start", vec![transition(Some(guard("ok")), None, "Running")]),
                bundle("Done", "Finish", vec![transition(Some(guard("ok")), None, "Done")]),
            ],
        )],
    );
    assert_eq!(validate_guard_signatures(&sm), Ok(()));
}

#[test]
fn guard_nested_in_an_expression_is_checked() {
    let nested = negated(grouped(either(
        guard("a"),
        grouped(both(negated(guard("deep")), guard("b"))),
    )));
    let sm = machine(
        &[("Idle", "IdleData"), ("Paused", "PausedData")],
        &[],
        vec![
            state(
                "Idle",
                vec![bundle(
                    "Start",
                    "Start",
                    vec![transition(Some(guard("deep")), None, "Running")],
                )],
            ),
            state(
                "Paused",
                vec![bundle(
                    "Start",
                    "Start",
                    vec![transition(Some(nested), None, "Running")],
                )],
            ),
        ],
    );
    assert_eq!(validate_guard_signatures(&sm), inconsistent_guard("deep"));
}

#[test]
fn guard_that_appears_only_nested_is_checked() {
    let one = both(guard("a"), either(guard("b"), negated(guard("hidden"))));
    let other = grouped(grouped(negated(guard("hidden"))));
    let sm = machine(
        &[("Idle", "IdleData")],
        &[],
        vec![
            state(
                "Idle",
                vec![bundle(
                    "Start",
                    "Start",
                    vec![transition(Some(one), None, "Running")],
                )],
            ),
            state(
                "Paused",
                vec![bundle(
                    "Start",
                    "Start",
                    vec![transition(Some(other), None, "Running")],
                )],
            ),
        ],
    );
    assert_eq!(validate_guard_signatures(&sm), inconsistent_guard("hidden"));
}

#[test]
fn guards_of_an_expression_are_checked_from_left_to_right() {
    let sm = machine(
        &[("Idle", "IdleData")],
        &[],
        vec![
            state(
                "Idle",
                vec![bundle(
                    "Start",
                    "Start",
                    vec![transition(Some(both(guard("x"), guard("y"))), None, "Running")],
                )],
            ),
            state(
                "Paused",
                vec![bundle(
                    "Start",
                    "Start",
                    vec![transition(Some(either(guard("y"), guard("x"))), None, "Running")],
                )],
            ),
        ],
    );
    assert_eq!(validate_guard_signatures(&sm), inconsistent_guard("y"));
}

#[test]
fn guard_called_plainly_and_awaited_is_rejected() {
    let mixed = both(GuardExpression::Guard(callable("ok")), GuardExpression::Guard(awaited("ok")));
    let sm = machine(
        &[],
        &[],
        vec![state(
            "Idle",
            vec![bundle("Running", "Start", vec![transition(Some(mixed), None, "Running")])],
        )],
    );
    assert_eq!(validate_guard_signatures(&sm), inconsistent_guard("ok"));
}

#[test]
fn a_guard_and_an_action_may_share_a_name() {
    let sm = machine(
        &[("Running", "RunningData")],
        &[],
        vec![state(
            "Idle",
            vec![bundle(
                "Running",
                "Start",
                vec![transition(Some(guard("same")), Some(callable("same")), "Running")],
            )],
        )],
    );
    assert_eq!(validate_action_signatures(&sm), Ok(()));
    assert_eq!(validate_guard_signatures(&sm), Ok(()));
    assert!(validate(&sm).is_ok());
}

#[test]
fn tracker_keeps_the_first_signature_of_each_name() {
    let a = syn::parse_str::<syn::Type>("A").unwrap();
    let b = syn::parse_str::<syn::Type>("B").unwrap();
    let mut tracker = SignatureTracker::new();
    assert!(tracker.check("act", FunctionSignature::new(Some(&a), None, None, false)));
    assert!(tracker.check("act", FunctionSignature::new(Some(&a), None, None, false)));
    assert!(!tracker.check("act", FunctionSignature::new(Some(&b), None, None, false)));
    assert!(tracker.check("act", FunctionSignature::new(Some(&a), None, None, false)));
    assert!(tracker.check("other", FunctionSignature::new(Some(&b), None, None, false)));
    assert!(!tracker.check("other", FunctionSignature::new(Some(&a), None, None, false)));
}

#[test]
fn guard_visitor_remembers_guards_from_one_bundle_to_the_next() {
    let a = syn::parse_str::<syn::Type>("A").unwrap();
    let b = syn::parse_str::<syn::Type>("B").unwrap();
    let mut visitor = GuardSignatures::new();
    visitor.enter(Some(&a), None);
    assert_eq!(visit_guards(&both(guard("x"), guard("y")), &mut visitor), Ok(()));
    visitor.enter(Some(&a), None);
    assert_eq!(visit_guards(&negated(guard("y")), &mut visitor), Ok(()));
    visitor.enter(Some(&a), Some(&b));
    assert_eq!(visit_guards(&guard("z"), &mut visitor), Ok(()));
    assert_eq!(visit_guards(&either(guard("z"), guard("x")), &mut visitor), inconsistent_guard("x"));
    visitor.enter(None, Some(&a));
    assert_eq!(visit_guards(&guard("x"), &mut visitor), Ok(()));
}

// The order of the transitions.

fn tick(transitions: Vec<Transition>) -> ParsedStateMachine {
    machine(&[], &[], vec![state("A", vec![bundle("B", "Tick", transitions)])])
}

fn unreachable(guard: &str) -> Result<(), Violation> {
    Err(Violation::UnreachableTransition {
        state: "A".to_string(),
        event: "Tick".to_string(),
        guard: guard.to_string(),
    })
}

fn duplicate() -> Result<(), Violation> {
    Err(Violation::DuplicateTransition { state: "A".to_string(), event: "Tick".to_string() })
}

#[test]
fn guarded_then_unguarded_is_in_order() {
    let sm = tick(vec![
        transition(Some(guard("is_ready")), None, "B"),
        transition(None, None, "C"),
    ]);
    assert_eq!(validate_unreachable_transitions(&sm), Ok(()));
    assert!(validate(&sm).is_ok());
}

#[test]
fn unguarded_then_guarded_is_unreachable() {
    let sm = tick(vec![
        transition(None, None, "C"),
        transition(Some(guard("is_ready")), None, "B"),
    ]);
    assert_eq!(validate_unreachable_transitions(&sm), unreachable("is_ready"));
    assert_eq!(
        validate(&sm).unwrap_err().to_string(),
        "A + Tick: [is_ready] : guarded transition is unreachable because it follows an unguarded transition, which handles all cases"
    );
}

#[test]
fn guarded_then_guarded_is_in_order() {
    let sm = tick(vec![
        transition(Some(guard("a")), None, "B"),
        transition(Some(guard("b")), None, "C"),
    ]);
    assert_eq!(validate_unreachable_transitions(&sm), Ok(()));
}

#[test]
fn unguarded_then_unguarded_is_a_duplicate() {
    let sm = tick(vec![transition(None, None, "B"), transition(None, None, "C")]);
    assert_eq!(validate_unreachable_transitions(&sm), duplicate());
    assert_eq!(
        validate(&sm).unwrap_err().to_string(),
        "A + Tick: State and event combination specified multiple times, remove duplicates."
    );
}

#[test]
fn single_unguarded_transition_is_in_order() {
    let sm = tick(vec![transition(None, None, "B")]);
    assert_eq!(validate_unreachable_transitions(&sm), Ok(()));
}

#[test]
fn single_guarded_transition_is_in_order() {
    let sm = tick(vec![transition(Some(guard("a")), None, "B")]);
    assert_eq!(validate_unreachable_transitions(&sm), Ok(()));
}

#[test]
fn bundle_without_transitions_is_in_order() {
    let sm = tick(vec![]);
    assert_eq!(validate_unreachable_transitions(&sm), Ok(()));
    assert!(validate(&sm).is_ok());
}

#[test]
fn unguarded_in_the_middle_makes_the_next_unreachable() {
    let sm = tick(vec![
        transition(Some(guard("a")), None, "B"),
        transition(None, None, "C"),
        transition(Some(both(guard("b"), negated(guard("c")))), None, "D"),
    ]);
    assert_eq!(validate_unreachable_transitions(&sm), unreachable("b && !c"));
}

#[test]
fn unguarded_last_of_three_is_in_order() {
    let sm = tick(vec![
        transition(Some(guard("a")), None, "B"),
        transition(Some(guard("b")), None, "C"),
        transition(None, None, "D"),
    ]);
    assert_eq!(validate_unreachable_transitions(&sm), Ok(()));
}

#[test]
fn second_unguarded_is_reported_before_a_later_guarded_one() {
    let sm = tick(vec![
        transition(None, None, "B"),
        transition(None, None, "C"),
        transition(Some(guard("a")), None, "D"),
    ]);
    assert_eq!(validate_unreachable_transitions(&sm), duplicate());
}

#[test]
fn guarded_behind_unguarded_is_reported_before_a_later_duplicate() {
    let sm = tick(vec![
        transition(None, None, "B"),
        transition(Some(grouped(guard("a"))), None, "C"),
        transition(None, None, "D"),
    ]);
    assert_eq!(validate_unreachable_transitions(&sm), unreachable("(a)"));
}

#[test]
fn the_event_reported_is_that_of_the_bundle() {
    let sm = machine(
        &[],
        &[],
        vec![state(
            "A",
            vec![bundle(
                "B",
                "Tick",
                vec![transition(None, None, "B"), transition(None, None, "B")],
            )],
        )],
    );
    assert_eq!(validate_unreachable_transitions(&sm), duplicate());
}

#[test]
fn the_first_bundle_out_of_order_is_reported() {
    let sm = machine(
        &[],
        &[],
        vec![
            state(
                "Fine",
                vec![bundle(
                    "Go",
                    "Go",
                    vec![
                        transition(Some(guard("a")), None, "A"),
                        transition(None, None, "A"),
                    ],
                )],
            ),
            state(
                "A",
                vec![
                    bundle("Tock", "Tock", vec![transition(None, None, "A")]),
                    bundle(
                        "Tick",
                        "Tick",
                        vec![
                            transition(None, None, "B"),
                            transition(None, None, "C"),
                        ],
                    ),
                    bundle(
                        "Late",
                        "Late",
                        vec![
                            transition(None, None, "B"),
                            transition(Some(guard("z")), None, "C"),
                        ],
                    ),
                ],
            ),
            state(
                "Z",
                vec![bundle(
                    "Go",
                    "Go",
                    vec![
                        transition(None, None, "A"),
                        transition(None, None, "A"),
                    ],
                )],
            ),
        ],
    );
    assert_eq!(validate_unreachable_transitions(&sm), duplicate());
}

// The three checks together.

#[test]
fn action_violation_is_reported_before_an_unreachable_transition() {
    let sm = machine(
        &[("Idle", "IdleData"), ("Paused", "PausedData")],
        &[],
        vec![
            state(
                "Idle",
                vec![bundle(
                    "Start",
                    "Start",
                    vec![
                        transition(None, Some(callable("begin")), "Running"),
                        transition(Some(guard("late")), None, "Running"),
                    ],
                )],
            ),
            state(
                "Paused",
                vec![bundle(
                    "Running",
                    "Start",
                    vec![transition(None, Some(callable("begin")), "Running")],
                )],
            ),
        ],
    );
    assert_eq!(validate_action_signatures(&sm), inconsistent_action("begin"));
    assert!(validate_unreachable_transitions(&sm).is_err());
    assert_eq!(validate(&sm).unwrap_err().to_string(), ACTION_BEGIN);
}

#[test]
fn action_violation_is_reported_before_a_guard_violation() {
    let sm = machine(
        &[("Idle", "IdleData"), ("Paused", "PausedData")],
        &[],
        vec![
            state(
                "Idle",
                vec![bundle(
                    "Start",
                    "Start",
                    vec![transition(Some(guard("ok")), Some(callable("begin")), "Running")],
                )],
            ),
            state(
                "Paused",
                vec![bundle(
                    "Start",
                    "Start",
                    vec![transition(Some(guard("ok")), Some(callable("begin")), "Running")],
                )],
            ),
        ],
    );
    assert_eq!(validate_guard_signatures(&sm), inconsistent_guard("ok"));
    assert_eq!(validate(&sm).unwrap_err().to_string(), ACTION_BEGIN);
}

#[test]
fn guard_violation_is_reported_before_an_unreachable_transition() {
    let sm = machine(
        &[("Idle", "IdleData"), ("Paused", "PausedData")],
        &[],
        vec![
            state(
                "Idle",
                vec![bundle(
                    "Start",
                    "Start",
                    vec![
                        transition(None, None, "Running"),
                        transition(Some(guard("ok")), None, "Running"),
                    ],
                )],
            ),
            state(
                "Paused",
                vec![bundle(
                    "Start",
                    "Start",
                    vec![transition(Some(guard("ok")), None, "Running")],
                )],
            ),
        ],
    );
    assert_eq!(validate_action_signatures(&sm), Ok(()));
    assert!(validate_unreachable_transitions(&sm).is_err());
    assert_eq!(
        validate(&sm).unwrap_err().to_string(),
        "Guard `ok` can only be reused when all input states and events have the same data"
    );
}

#[test]
fn coherent_machine_is_valid() {
    let sm = machine(
        &[("Idle", "IdleData"), ("Running", "RunningData")],
        &[("Start", "StartEvent"), ("Stop", "StopEvent")],
        vec![
            state(
                "Idle",
                vec![bundle(
                    "Start",
                    "Start",
                    vec![
                        transition(
                            Some(both(guard("is_ready"), negated(guard("is_busy")))),
                            Some(callable("begin")),
                            "Running",
                        ),
                        transition(None, Some(callable("refuse")), "Idle"),
                    ],
                )],
            ),
            state(
                "Running",
                vec![
                    bundle("Stop", "Stop", vec![transition(None, Some(awaited("end")), "Idle")]),
                    bundle("Start", "Start", vec![transition(None, None, "Running")]),
                ],
            ),
        ],
    );
    assert_eq!(validate_action_signatures(&sm), Ok(()));
    assert_eq!(validate_guard_signatures(&sm), Ok(()));
    assert_eq!(validate_unreachable_transitions(&sm), Ok(()));
    assert!(validate(&sm).is_ok());
}
