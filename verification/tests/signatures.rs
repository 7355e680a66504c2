use smlang_validation::model::DataDefinitions;
use smlang_validation::signature::FunctionSignature;

fn parse_type(text: &str) -> syn::Type {
    syn::parse_str::<syn::Type>(text).unwrap()
}

#[test]
fn signatures_of_the_same_data_are_equal() {
    let state = parse_type("IdleData");
    let event = parse_type("StartEvent");
    let output = parse_type("RunningData");
    let one = FunctionSignature::new(Some(&state), Some(&event), Some(&output), false);
    let other = FunctionSignature::new(Some(&state), Some(&event), Some(&output), false);
    assert!(one == other);
}

#[test]
fn signature_arguments_are_ordered_state_then_event() {
    let a = parse_type("A");
    let b = parse_type("B");
    let one = FunctionSignature::new(Some(&a), Some(&b), None, false);
    let swapped = FunctionSignature::new(Some(&b), Some(&a), None, false);
    assert!(one != swapped);
}

#[test]
fn signature_with_state_data_only_equals_one_with_the_same_event_data_only() {
    let a = parse_type("A");
    let from_state = FunctionSignature::new(Some(&a), None, None, false);
    let from_event = FunctionSignature::new(None, Some(&a), None, false);
    assert!(from_state == from_event);
}

#[test]
fn signature_argument_count_counts() {
    let a = parse_type("A");
    let one = FunctionSignature::new(Some(&a), None, None, false);
    let two = FunctionSignature::new(Some(&a), Some(&a), None, false);
    let none = FunctionSignature::new(None, None, None, false);
    assert!(one != two);
    assert!(one != none);
    assert!(none == FunctionSignature::new(None, None, None, false));
}

#[test]
fn signature_result_counts() {
    let a = parse_type("A");
    let out = parse_type("Out");
    let other_out = parse_type("OtherOut");
    let with = FunctionSignature::new(Some(&a), None, Some(&out), false);
    let without = FunctionSignature::new(Some(&a), None, None, false);
    let with_other = FunctionSignature::new(Some(&a), None, Some(&other_out), false);
    assert!(with != without);
    assert!(without != with);
    assert!(with != with_other);
    assert!(with == FunctionSignature::new(Some(&a), None, Some(&out), false));
}

#[test]
fn signature_synchrony_counts() {
    let a = parse_type("A");
    let plain = FunctionSignature::new(Some(&a), None, None, false);
    let awaited = FunctionSignature::new(Some(&a), None, None, true);
    assert!(plain != awaited);
}

#[test]
fn guard_signature_has_no_result() {
    let a = parse_type("A");
    let b = parse_type("B");
    let guard = FunctionSignature::new_guard(Some(&a), Some(&b), true);
    assert!(guard == FunctionSignature::new(Some(&a), Some(&b), None, true));
    assert!(guard != FunctionSignature::new(Some(&a), Some(&b), Some(&a), true));
    assert!(guard != FunctionSignature::new_guard(Some(&a), Some(&b), false));
}

#[test]
fn types_are_compared_by_syntax_not_by_spelling() {
    let tight = parse_type("Vec<u8>");
    let loose = parse_type("Vec < u8 >");
    let other = parse_type("Vec<u16>");
    let reference = parse_type("&'static Vec<u8>");
    assert!(
        FunctionSignature::new(Some(&tight), None, None, false)
            == FunctionSignature::new(Some(&loose), None, None, false)
    );
    assert!(
        FunctionSignature::new(Some(&tight), None, None, false)
            != FunctionSignature::new(Some(&other), None, None, false)
    );
    assert!(
        FunctionSignature::new(None, None, Some(&tight), false)
            != FunctionSignature::new(None, None, Some(&reference), false)
    );
}

#[test]
fn a_cloned_signature_equals_the_one_cloned() {
    let a = parse_type("A");
    let out = parse_type("(u8, u16)");
    let signature = FunctionSignature::new(Some(&a), None, Some(&out), true);
    assert!(signature.clone() == signature);
}

#[test]
fn data_definitions_start_empty() {
    let definitions = DataDefinitions::new();
    assert!(definitions.get("Idle").is_none());
}

#[test]
fn data_definitions_give_back_what_was_inserted() {
    let mut definitions = DataDefinitions::new();
    definitions.insert("Idle", parse_type("IdleData"));
    definitions.insert("Running", parse_type("RunningData"));
    assert_eq!(definitions.get("Idle"), Some(&parse_type("IdleData")));
    assert_eq!(definitions.get("Running"), Some(&parse_type("RunningData")));
    assert!(definitions.get("Paused").is_none());
}

#[test]
fn data_definitions_keep_the_last_type_given_to_a_name() {
    let mut definitions = DataDefinitions::new();
    definitions.insert("Idle", parse_type("u8"));
    definitions.insert("Idle", parse_type("u16"));
    assert_eq!(definitions.get("Idle"), Some(&parse_type("u16")));
}
