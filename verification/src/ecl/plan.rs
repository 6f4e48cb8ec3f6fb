//! The text of an expression, and the plan of a query: the steps of its
//! evaluation, each with the text of its expression and an estimate of the
//! number of concepts that it gives.

use vstd::prelude::*;
use vstd::string::StringExecFns;
use crate::sctid::SctId;
use crate::index::counted;
use crate::number::{decimal_digits, push_decimal};
use crate::queryable::EclQueryable;
use crate::ecl::ast::{EclError, EclExpression};
use crate::ecl::parser::{parse, spec_parse};
use crate::ecl::executor::{distinct, known_self, EclExecutor};
use crate::ecl::round_trip::lemma_render_parses_back;

verus! {

/// Whether an expression is made with a set operator.
pub open spec fn is_compound(e: EclExpression) -> bool {
    e is And || e is Or || e is Minus
}

/// The text of an expression. The right side of a set operator stands in
/// parentheses where it is itself made with a set operator; the left side
/// never does, since the operators associate to the left.
pub open spec fn spec_render(e: EclExpression) -> Seq<char>
    decreases e,
{
    match e {
        EclExpression::Concept(id) => decimal_digits(id as nat),
        EclExpression::DescendantOf(id) => "< "@ + decimal_digits(id as nat),
        EclExpression::DescendantOrSelfOf(id) => "<< "@ + decimal_digits(id as nat),
        EclExpression::AncestorOf(id) => "> "@ + decimal_digits(id as nat),
        EclExpression::AncestorOrSelfOf(id) => ">> "@ + decimal_digits(id as nat),
        EclExpression::MemberOf(id) => "^ "@ + decimal_digits(id as nat),
        EclExpression::And(a, b) => spec_render(*a) + " AND "@ + (if is_compound(*b) {
            "("@ + spec_render(*b) + ")"@
        } else {
            spec_render(*b)
        }),
        EclExpression::Or(a, b) => spec_render(*a) + " OR "@ + (if is_compound(*b) {
            "("@ + spec_render(*b) + ")"@
        } else {
            spec_render(*b)
        }),
        EclExpression::Minus(a, b) => spec_render(*a) + " MINUS "@ + (if is_compound(*b) {
            "("@ + spec_render(*b) + ")"@
        } else {
            spec_render(*b)
        }),
    }
}

/// Whether an expression is made with a set operator.
fn compound(e: &EclExpression) -> (r: bool)
    ensures
        r == is_compound(*e),
{
    match e {
        EclExpression::And(_, _) | EclExpression::Or(_, _) | EclExpression::Minus(_, _) => true,
        _ => false,
    }
}

/// Appends the text of an expression.
fn push_render(out: &mut String, e: &EclExpression)
    ensures
        final(out)@ == old(out)@ + spec_render(*e),
    decreases e, 0nat,
{
    match e {
        EclExpression::Concept(id) => {
            push_decimal(out, *id);
        },
        EclExpression::DescendantOf(id) => {
            out.append("< ");
            push_decimal(out, *id);
            assert(final(out)@ =~= old(out)@ + spec_render(*e));
        },
        EclExpression::DescendantOrSelfOf(id) => {
            out.append("<< ");
            push_decimal(out, *id);
            assert(final(out)@ =~= old(out)@ + spec_render(*e));
        },
        EclExpression::AncestorOf(id) => {
            out.append("> ");
            push_decimal(out, *id);
            assert(final(out)@ =~= old(out)@ + spec_render(*e));
        },
        EclExpression::AncestorOrSelfOf(id) => {
            out.append(">> ");
            push_decimal(out, *id);
            assert(final(out)@ =~= old(out)@ + spec_render(*e));
        },
        EclExpression::MemberOf(id) => {
            out.append("^ ");
            push_decimal(out, *id);
            assert(final(out)@ =~= old(out)@ + spec_render(*e));
        },
        EclExpression::And(a, b) => {
            push_render(out, a);
            out.append(" AND ");
            push_operand(out, b);
            assert(final(out)@ =~= old(out)@ + spec_render(*e));
        },
        EclExpression::Or(a, b) => {
            push_render(out, a);
            out.append(" OR ");
            push_operand(out, b);
            assert(final(out)@ =~= old(out)@ + spec_render(*e));
        },
        EclExpression::Minus(a, b) => {
            push_render(out, a);
            out.append(" MINUS ");
            push_operand(out, b);
            assert(final(out)@ =~= old(out)@ + spec_render(*e));
        },
    }
}

/// Appends the text of the right side of a set operator.
fn push_operand(out: &mut String, e: &EclExpression)
    ensures
        final(out)@ == old(out)@ + (if is_compound(*e) {
            "("@ + spec_render(*e) + ")"@
        } else {
            spec_render(*e)
        }),
    decreases e, 1nat,
{
    if compound(e) {
        out.append("(");
        push_render(out, e);
        out.append(")");
        assert(final(out)@ =~= old(out)@ + ("("@ + spec_render(*e) + ")"@));
    } else {
        push_render(out, e);
    }
}

/// The text of an expression, which parses back to the expression.
pub fn render(e: &EclExpression) -> (r: String)
    ensures
        r@ == spec_render(*e),
        spec_parse(r@) == Ok::<EclExpression, EclError>(*e),
{
    let mut out = String::new();
    push_render(&mut out, e);
    assert(out@ =~= spec_render(*e));
    proof {
        lemma_render_parses_back(*e);
    }
    out
}

/// The kind of a step of a query.
#[derive(Debug, Clone, Copy, PartialEq, Eq, Structural)]
pub enum Operation {
    /// The concept itself.
    Concept,
    /// The strict descendants of a concept.
    DescendantOf,
    /// A concept and its descendants.
    DescendantOrSelfOf,
    /// The strict ancestors of a concept.
    AncestorOf,
    /// A concept and its ancestors.
    AncestorOrSelfOf,
    /// The members of a reference set.
    MemberOf,
    /// Intersection.
    And,
    /// Union.
    Or,
    /// Difference.
    Minus,
}

/// One step of a query.
#[derive(Debug, Clone, PartialEq, Eq)]
pub struct QueryStep {
    /// The kind of the step.
    pub operation: Operation,
    /// The text of the expression that the step evaluates.
    pub expression: String,
    /// An estimate of the number of concepts that the step gives.
    pub estimated_cardinality: usize,
}

/// Mathematical model of a [`QueryStep`].
pub struct QueryStepView {
    pub operation: Operation,
    pub expression: Seq<char>,
    pub estimated_cardinality: usize,
}

impl View for QueryStep {
    type V = QueryStepView;

    open spec fn view(&self) -> QueryStepView {
        QueryStepView {
            operation: self.operation,
            expression: self.expression@,
            estimated_cardinality: self.estimated_cardinality,
        }
    }
}

/// The plan of a query.
#[derive(Debug, Clone, PartialEq, Eq)]
pub struct QueryPlan {
    /// The text of the query.
    pub ecl: String,
    /// The steps, each after the steps of its operands.
    pub steps: Vec<QueryStep>,
    /// An estimate of the number of concepts that the query gives.
    pub estimated_total: usize,
}

/// The kind of the step that evaluates an expression.
pub open spec fn operation_of(e: EclExpression) -> Operation {
    match e {
        EclExpression::Concept(_) => Operation::Concept,
        EclExpression::DescendantOf(_) => Operation::DescendantOf,
        EclExpression::DescendantOrSelfOf(_) => Operation::DescendantOrSelfOf,
        EclExpression::AncestorOf(_) => Operation::AncestorOf,
        EclExpression::AncestorOrSelfOf(_) => Operation::AncestorOrSelfOf,
        EclExpression::MemberOf(_) => Operation::MemberOf,
        EclExpression::And(_, _) => Operation::And,
        EclExpression::Or(_, _) => Operation::Or,
        EclExpression::Minus(_, _) => Operation::Minus,
    }
}

/// The direct children of a concept.
pub open spec fn children_of<Q: EclQueryable>(store: &Q, id: SctId) -> Set<SctId> {
    Set::new(|c: SctId| store.edges().contains((c, id)))
}

/// The direct parents of a concept.
pub open spec fn parents_of<Q: EclQueryable>(store: &Q, id: SctId) -> Set<SctId> {
    Set::new(|p: SctId| store.edges().contains((id, p)))
}

/// An estimate of the number of concepts that an expression denotes, made
/// without a search: for a hierarchy operator the number of direct children
/// or parents, and one more with the concept itself; for a reference set
/// the number of its members; for an intersection the smaller side, for a
/// union the sum, for a difference the left side.
pub open spec fn estimate<Q: EclQueryable>(store: &Q, e: EclExpression) -> nat
    decreases e,
{
    match e {
        EclExpression::Concept(id) => known_self(store, id).len(),
        EclExpression::DescendantOf(id) => children_of(store, id).len(),
        EclExpression::DescendantOrSelfOf(id) => children_of(store, id).len() + 1,
        EclExpression::AncestorOf(id) => parents_of(store, id).len(),
        EclExpression::AncestorOrSelfOf(id) => parents_of(store, id).len() + 1,
        EclExpression::MemberOf(id) => store.members(id).to_set().len(),
        EclExpression::And(a, b) => if estimate(store, *a) <= estimate(store, *b) {
            estimate(store, *a)
        } else {
            estimate(store, *b)
        },
        EclExpression::Or(a, b) => estimate(store, *a) + estimate(store, *b),
        EclExpression::Minus(a, b) => estimate(store, *a),
    }
}

/// The step that evaluates an expression.
pub open spec fn step_of<Q: EclQueryable>(store: &Q, e: EclExpression) -> QueryStepView {
    QueryStepView {
        operation: operation_of(e),
        expression: spec_render(e),
        estimated_cardinality: counted(estimate(store, e)),
    }
}

/// The steps of the evaluation of an expression: those of the left side,
/// those of the right side, then the step of the expression itself.
pub open spec fn steps_of<Q: EclQueryable>(store: &Q, e: EclExpression) -> Seq<QueryStepView>
    decreases e,
{
    match e {
        EclExpression::And(a, b) => steps_of(store, *a) + steps_of(store, *b) + seq![
            step_of(store, e),
        ],
        EclExpression::Or(a, b) => steps_of(store, *a) + steps_of(store, *b) + seq![
            step_of(store, e),
        ],
        EclExpression::Minus(a, b) => steps_of(store, *a) + steps_of(store, *b) + seq![
            step_of(store, e),
        ],
        _ => seq![step_of(store, e)],
    }
}

/// The models of the steps of a plan.
pub open spec fn step_views(steps: Seq<QueryStep>) -> Seq<QueryStepView> {
    Seq::new(steps.len(), |i: int| steps[i]@)
}

/// The sum of two counters, held at the largest value where it would pass
/// it.
fn add_counted(a: usize, b: usize, Ghost(x): Ghost<nat>, Ghost(y): Ghost<nat>) -> (r: usize)
    requires
        a == counted(x),
        b == counted(y),
    ensures
        r == counted(x + y),
{
    if a > usize::MAX - b {
        usize::MAX
    } else {
        a + b
    }
}

/// The number of distinct identifiers of a list.
fn count_distinct(list: &Vec<SctId>) -> (r: usize)
    ensures
        r == list@.to_set().len(),
{
    let once = distinct(list);
    proof {
        once@.unique_seq_to_set();
    }
    once.len()
}

/// Appends the steps of the evaluation of an expression, and gives the
/// estimate for it.
fn plan_steps<Q: EclQueryable>(store: &Q, e: &EclExpression, steps: &mut Vec<QueryStep>) -> (r:
    usize)
    requires
        store.valid(),
    ensures
        step_views(final(steps)@) == step_views(old(steps)@) + steps_of(store, *e),
        r == counted(estimate(store, *e)),
    decreases e,
{
    let ghost before = step_views(steps@);
    let cardinality: usize = match e {
        EclExpression::Concept(id) => {
            if store.has_concept(*id) {
                assert(known_self(store, *id).len() == 1) by {
                    assert(known_self(store, *id) =~= set![*id]);
                }
                1
            } else {
                0
            }
        },
        EclExpression::DescendantOf(id) => {
            let children = store.get_children(*id);
            assert(children@.to_set() =~= children_of(store, *id));
            count_distinct(&children)
        },
        EclExpression::DescendantOrSelfOf(id) => {
            let children = store.get_children(*id);
            assert(children@.to_set() =~= children_of(store, *id));
            let n = count_distinct(&children);
            add_counted(n, 1, Ghost(children_of(store, *id).len()), Ghost(1))
        },
        EclExpression::AncestorOf(id) => {
            let parents = store.get_parents(*id);
            assert(parents@.to_set() =~= parents_of(store, *id));
            count_distinct(&parents)
        },
        EclExpression::AncestorOrSelfOf(id) => {
            let parents = store.get_parents(*id);
            assert(parents@.to_set() =~= parents_of(store, *id));
            let n = count_distinct(&parents);
            add_counted(n, 1, Ghost(parents_of(store, *id).len()), Ghost(1))
        },
        EclExpression::MemberOf(id) => {
            let members = store.get_refset_members(*id);
            count_distinct(&members)
        },
        EclExpression::And(a, b) => {
            let left = plan_steps(store, a, steps);
            let right = plan_steps(store, b, steps);
            if left <= right {
                left
            } else {
                right
            }
        },
        EclExpression::Or(a, b) => {
            let left = plan_steps(store, a, steps);
            let right = plan_steps(store, b, steps);
            add_counted(left, right, Ghost(estimate(store, **a)), Ghost(estimate(store, **b)))
        },
        EclExpression::Minus(a, b) => {
            let left = plan_steps(store, a, steps);
            let _right = plan_steps(store, b, steps);
            left
        },
    };
    let ghost operands = step_views(steps@);
    steps.push(
        QueryStep {
            operation: match e {
                EclExpression::Concept(_) => Operation::Concept,
                EclExpression::DescendantOf(_) => Operation::DescendantOf,
                EclExpression::DescendantOrSelfOf(_) => Operation::DescendantOrSelfOf,
                EclExpression::AncestorOf(_) => Operation::AncestorOf,
                EclExpression::AncestorOrSelfOf(_) => Operation::AncestorOrSelfOf,
                EclExpression::MemberOf(_) => Operation::MemberOf,
                EclExpression::And(_, _) => Operation::And,
                EclExpression::Or(_, _) => Operation::Or,
                EclExpression::Minus(_, _) => Operation::Minus,
            },
            expression: render(e),
            estimated_cardinality: cardinality,
        },
    );
    proof {
        assert(step_views(steps@) =~= operands + seq![step_of(store, *e)]);
        assert(step_views(steps@) =~= before + steps_of(store, *e));
    }
    cardinality
}

impl<'a, Q: EclQueryable> EclExecutor<'a, Q> {
    /// The plan of the query of a text: the steps of its evaluation, each
    /// with its kind, the text of its expression and an estimate of what it
    /// gives.
    pub fn explain(&self, ecl: &str) -> (r: Result<QueryPlan, EclError>)
        requires
            self.wf(),
        ensures
            match spec_parse(ecl@) {
                Err(e) => r == Err::<QueryPlan, EclError>(e),
                Ok(expression) => {
                    &&& r is Ok
                    &&& r->Ok_0.ecl@ == ecl@
                    &&& step_views(r->Ok_0.steps@) == steps_of(self.store(), expression)
                    &&& r->Ok_0.estimated_total == counted(estimate(self.store(), expression))
                },
            },
    {
        match parse(ecl) {
            Err(e) => Err(e),
            Ok(expression) => {
                let mut steps: Vec<QueryStep> = Vec::new();
                assert(step_views(steps@) =~= Seq::<QueryStepView>::empty());
                let estimated_total = plan_steps(self.store_ref(), &expression, &mut steps);
                assert(Seq::<QueryStepView>::empty() + steps_of(self.store(), expression)
                    =~= steps_of(self.store(), expression));
                Ok(QueryPlan { ecl: ecl.to_owned(), steps, estimated_total })
            },
        }
    }
}

} // verus!
