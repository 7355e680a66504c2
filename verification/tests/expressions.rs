use smlang_validation::expression::{visit_guards, GuardVisitor};
use smlang_validation::model::{AsyncIdent, AsyncIdentView, GuardExpression};
use smlang_validation::violation::{Violation, ViolationView};

fn leaf(name: &str) -> GuardExpression {
    GuardExpression::Guard(AsyncIdent { ident: name.to_string(), is_async: false })
}

fn awaited_leaf(name: &str) -> GuardExpression {
    GuardExpression::Guard(AsyncIdent { ident: name.to_string(), is_async: true })
}

fn not(inner: GuardExpression) -> GuardExpression {
    GuardExpression::Not(Box::new(inner))
}

fn group(inner: GuardExpression) -> GuardExpression {
    GuardExpression::Group(Box::new(inner))
}

fn and(left: GuardExpression, right: GuardExpression) -> GuardExpression {
    GuardExpression::And(Box::new(left), Box::new(right))
}

fn or(left: GuardExpression, right: GuardExpression) -> GuardExpression {
    GuardExpression::Or(Box::new(left), Box::new(right))
}

/// Records the guards it is shown, and refuses the guard named `stop_at`.
struct Recorder {
    seen: Vec<(String, bool)>,
    stop_at: Option<String>,
}

impl GuardVisitor for Recorder {
    type Memory = ();

    fn memory(&self) {}

    fn seeing(_memory: (), _guard: AsyncIdentView) -> Result<(), ViolationView> {
        Ok(())
    }

    fn visit(&mut self, guard: &AsyncIdent) -> Result<(), Violation> {
        if self.stop_at.as_deref() == Some(guard.ident.as_str()) {
            return Err(Violation::InconsistentGuard { guard: guard.ident.clone() });
        }
        self.seen.push((guard.ident.clone(), guard.is_async));
        Ok(())
    }
}

fn names(recorder: &Recorder) -> Vec<&str> {
    recorder.seen.iter().map(|(name, _)| name.as_str()).collect()
}

#[test]
fn text_of_a_single_guard_is_its_name() {
    assert_eq!(leaf("is_ready").text(), "is_ready");
    assert_eq!(awaited_leaf("is_ready").text(), "is_ready");
}

#[test]
fn text_of_a_negation() {
    assert_eq!(not(leaf("a")).text(), "!a");
}

#[test]
fn text_of_a_group() {
    assert_eq!(group(leaf("a")).text(), "(a)");
}

#[test]
fn text_of_a_conjunction() {
    assert_eq!(and(leaf("a"), leaf("b")).text(), "a && b");
}

#[test]
fn text_of_a_disjunction() {
    assert_eq!(or(leaf("a"), leaf("b")).text(), "a || b");
}

#[test]
fn text_of_a_nested_expression() {
    let expr = or(not(group(and(leaf("a"), leaf("b")))), and(leaf("c"), not(leaf("d"))));
    assert_eq!(expr.text(), "!(a && b) || c && !d");
}

#[test]
fn visit_shows_a_single_guard() {
    let mut recorder = Recorder { seen: Vec::new(), stop_at: None };
    assert_eq!(visit_guards(&awaited_leaf("a"), &mut recorder), Ok(()));
    assert_eq!(recorder.seen, vec![("a".to_string(), true)]);
}

#[test]
fn visit_shows_every_guard_from_left_to_right() {
    let expr = or(and(leaf("a"), leaf("b")), and(leaf("c"), leaf("d")));
    let mut recorder = Recorder { seen: Vec::new(), stop_at: None };
    assert_eq!(visit_guards(&expr, &mut recorder), Ok(()));
    assert_eq!(names(&recorder), vec!["a", "b", "c", "d"]);
}

#[test]
fn visit_reaches_guards_at_any_depth() {
    let expr = not(group(or(leaf("a"), group(and(not(leaf("deep")), leaf("b"))))));
    let mut recorder = Recorder { seen: Vec::new(), stop_at: None };
    assert_eq!(visit_guards(&expr, &mut recorder), Ok(()));
    assert_eq!(names(&recorder), vec!["a", "deep", "b"]);
}

#[test]
fn visit_shows_a_repeated_guard_each_time() {
    let expr = and(leaf("a"), or(leaf("a"), not(leaf("a"))));
    let mut recorder = Recorder { seen: Vec::new(), stop_at: None };
    assert_eq!(visit_guards(&expr, &mut recorder), Ok(()));
    assert_eq!(names(&recorder), vec!["a", "a", "a"]);
}

#[test]
fn visit_stops_at_the_first_failure_and_hands_it_on() {
    let expr = or(and(leaf("a"), leaf("b")), and(leaf("c"), leaf("d")));
    let mut recorder = Recorder { seen: Vec::new(), stop_at: Some("c".to_string()) };
    assert_eq!(
        visit_guards(&expr, &mut recorder),
        Err(Violation::InconsistentGuard { guard: "c".to_string() })
    );
    assert_eq!(names(&recorder), vec!["a", "b"]);
}

#[test]
fn visit_stops_at_a_failure_in_the_left_branch() {
    let expr = and(group(leaf("a")), leaf("b"));
    let mut recorder = Recorder { seen: Vec::new(), stop_at: Some("a".to_string()) };
    assert_eq!(
        visit_guards(&expr, &mut recorder),
        Err(Violation::InconsistentGuard { guard: "a".to_string() })
    );
    assert!(recorder.seen.is_empty());
}
