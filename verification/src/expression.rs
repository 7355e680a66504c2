//! Guard expressions: their guards in order, their text, and the traversal
//! that shows each guard to a visitor.

use crate::model::{AsyncIdent, AsyncIdentView, GuardExpression, GuardExpressionView};
use crate::violation::{found, Violation, ViolationView};
use vstd::prelude::*;

verus! {

impl GuardExpressionView {
    /// The guards that the expression names, from left to right, each as
    /// often as it is written.
    pub open spec fn guards(self) -> Seq<AsyncIdentView>
        decreases self,
    {
        match self {
            GuardExpressionView::Guard(guard) => seq![guard],
            GuardExpressionView::Not(inner) => inner.guards(),
            GuardExpressionView::Group(inner) => inner.guards(),
            GuardExpressionView::And(left, right) => left.guards() + right.guards(),
            GuardExpressionView::Or(left, right) => left.guards() + right.guards(),
        }
    }

    /// Whether `guard` is written anywhere in the expression, at any depth.
    pub open spec fn mentions(self, guard: AsyncIdentView) -> bool
        decreases self,
    {
        match self {
            GuardExpressionView::Guard(leaf) => leaf == guard,
            GuardExpressionView::Not(inner) => inner.mentions(guard),
            GuardExpressionView::Group(inner) => inner.mentions(guard),
            GuardExpressionView::And(left, right) => left.mentions(guard) || right.mentions(guard),
            GuardExpressionView::Or(left, right) => left.mentions(guard) || right.mentions(guard),
        }
    }

    /// The expression as it is written in a description.
    pub open spec fn text(self) -> Seq<char>
        decreases self,
    {
        match self {
            GuardExpressionView::Guard(guard) => guard.ident,
            GuardExpressionView::Not(inner) => "!"@ + inner.text(),
            GuardExpressionView::Group(inner) => "("@ + inner.text() + ")"@,
            GuardExpressionView::And(left, right) => left.text() + " && "@ + right.text(),
            GuardExpressionView::Or(left, right) => left.text() + " || "@ + right.text(),
        }
    }
}

impl GuardExpression {
    /// The expression as it is written in a description.
    pub fn text(&self) -> (text: String)
        ensures
            text@ == self@.text(),
        decreases self,
    {
        match self {
            GuardExpression::Guard(guard) => guard.ident.clone(),
            GuardExpression::Not(inner) => {
                let mut text = String::from_str("!");
                let inner_text = inner.text();
                text.append(inner_text.as_str());
                text
            },
            GuardExpression::Group(inner) => {
                let mut text = String::from_str("(");
                let inner_text = inner.text();
                text.append(inner_text.as_str());
                text.append(")");
                text
            },
            GuardExpression::And(left, right) => {
                let mut text = left.text();
                let right_text = right.text();
                text.append(" && ");
                text.append(right_text.as_str());
                text
            },
            GuardExpression::Or(left, right) => {
                let mut text = left.text();
                let right_text = right.text();
                text.append(" || ");
                text.append(right_text.as_str());
                text
            },
        }
    }
}

/// Something that is shown the guards of an expression one by one, and may
/// stop the traversal by reporting a violation.
pub trait GuardVisitor: Sized {
    /// What the visitor keeps from one guard to the next.
    type Memory;

    /// What the visitor keeps at present.
    spec fn memory(&self) -> Self::Memory;

    /// What seeing `guard` leads to: what the visitor keeps afterwards, or
    /// the violation that it reports.
    spec fn seeing(memory: Self::Memory, guard: AsyncIdentView) -> Result<
        Self::Memory,
        ViolationView,
    >;

    /// Shows `guard` to the visitor. A visit that reports a violation leaves
    /// the visitor as it was.
    fn visit(&mut self, guard: &AsyncIdent) -> (outcome: Result<(), Violation>)
        ensures
            match Self::seeing(old(self).memory(), guard@) {
                Ok(next) => outcome is Ok && final(self).memory() == next,
                Err(violation) => found(outcome) == Some(violation) && final(self).memory() == old(
                    self,
                ).memory(),
            },
    ;
}

/// Seeing `guards` in order, up to the first that leads to a violation: what
/// the visitor keeps in the end, and that violation if there is one.
pub open spec fn seeing_all<V: GuardVisitor>(memory: V::Memory, guards: Seq<AsyncIdentView>) -> (
    V::Memory,
    Option<ViolationView>,
)
    decreases guards.len(),
{
    if guards.len() == 0 {
        (memory, None)
    } else {
        match V::seeing(memory, guards.first()) {
            Ok(next) => seeing_all::<V>(next, guards.drop_first()),
            Err(violation) => (memory, Some(violation)),
        }
    }
}

/// Seeing one sequence of guards and then another is seeing the two joined.
pub(crate) proof fn lemma_seeing_all_joined<V: GuardVisitor>(
    memory: V::Memory,
    first: Seq<AsyncIdentView>,
    second: Seq<AsyncIdentView>,
)
    ensures
        seeing_all::<V>(memory, first + second) == (match seeing_all::<V>(memory, first) {
            (between, None) => seeing_all::<V>(between, second),
            stopped => stopped,
        }),
    decreases first.len(),
{
    if first.len() > 0 {
        assert((first + second).drop_first() =~= first.drop_first() + second);
        match V::seeing(memory, first.first()) {
            Ok(next) => lemma_seeing_all_joined::<V>(next, first.drop_first(), second),
            Err(_) => {},
        }
    }
}

/// Shows every guard of `expr` to `visitor`, from left to right and whatever
/// the depth at which it stands, and stops at the first visit that reports a
/// violation, which is handed on as it is.
pub fn visit_guards<V: GuardVisitor>(expr: &GuardExpression, visitor: &mut V) -> (outcome: Result<
    (),
    Violation,
>)
    ensures
        (final(visitor).memory(), found(outcome)) == seeing_all::<V>(
            old(visitor).memory(),
            expr@.guards(),
        ),
    decreases expr,
{
    match expr {
        GuardExpression::Guard(guard) => {
            proof {
                let guards = expr@.guards();
                if let Ok(next) = V::seeing(old(visitor).memory(), guard@) {
                    assert(seeing_all::<V>(next, guards.drop_first()) == (
                        next,
                        None::<ViolationView>,
                    ));
                }
            }
            visitor.visit(guard)
        },
        GuardExpression::Not(inner) => visit_guards(inner, visitor),
        GuardExpression::Group(inner) => visit_guards(inner, visitor),
        GuardExpression::And(left, right) => {
            proof {
                lemma_seeing_all_joined::<V>(
                    old(visitor).memory(),
                    left@.guards(),
                    right@.guards(),
                );
            }
            match visit_guards(left, visitor) {
                Ok(()) => visit_guards(right, visitor),
                Err(violation) => Err(violation),
            }
        },
        GuardExpression::Or(left, right) => {
            proof {
                lemma_seeing_all_joined::<V>(
                    old(visitor).memory(),
                    left@.guards(),
                    right@.guards(),
                );
            }
            match visit_guards(left, visitor) {
                Ok(()) => visit_guards(right, visitor),
                Err(violation) => Err(violation),
            }
        },
    }
}

} // verus!
