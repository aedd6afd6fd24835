use vstd::prelude::*;
use crate::error::{ErrorView, EvalError};
use crate::interrupt::{admits, checkpoint, Interrupt};
use crate::ops::{outcome_view, BinaryOp, Builtin, Operation, UnaryOp};
use crate::scope::Scope;
use crate::value::{lemma_views_push, views, Value, ValueView};

verus! {

/// An expression. Each node owns its children and knows where it stands in
/// the source: `position` is the index of the character that begins the
/// literal, the name, the call or the list, or of the node's operator.
#[derive(Debug, PartialEq)]
#[allow(inconsistent_fields)]
pub enum Expr {
    Literal { value: Value, position: usize },
    Variable { name: String, position: usize },
    Unary { op: UnaryOp, operand: Box<Expr>, position: usize },
    Binary { op: BinaryOp, left: Box<Expr>, right: Box<Expr>, position: usize },
    /// `condition ? first : second`
    Conditional { condition: Box<Expr>, first: Box<Expr>, second: Box<Expr>, position: usize },
    Call { function: Builtin, arguments: Vec<Expr>, position: usize },
    List { items: Vec<Expr>, position: usize },
}

/// The mathematical content of an [`Expr`].
#[allow(inconsistent_fields)]
pub ghost enum ExprView {
    Literal { value: ValueView, position: usize },
    Variable { name: Seq<char>, position: usize },
    Unary { op: UnaryOp, operand: Box<ExprView>, position: usize },
    Binary { op: BinaryOp, left: Box<ExprView>, right: Box<ExprView>, position: usize },
    Conditional {
        condition: Box<ExprView>,
        first: Box<ExprView>,
        second: Box<ExprView>,
        position: usize,
    },
    Call { function: Builtin, arguments: Seq<ExprView>, position: usize },
    List { items: Seq<ExprView>, position: usize },
}

/// The views of the expressions `items`, in order.
pub open spec fn expr_views(items: Seq<Expr>) -> Seq<ExprView>
    decreases items,
{
    if items.len() == 0 {
        Seq::empty()
    } else {
        expr_views(items.drop_last()).push(items.last()@)
    }
}

impl View for Expr {
    type V = ExprView;

    open spec fn view(&self) -> ExprView
        decreases self,
    {
        match self {
            Expr::Literal { value, position } => ExprView::Literal {
                value: value@,
                position: *position,
            },
            Expr::Variable { name, position } => ExprView::Variable {
                name: name@,
                position: *position,
            },
            Expr::Unary { op, operand, position } => ExprView::Unary {
                op: *op,
                operand: Box::new((**operand)@),
                position: *position,
            },
            Expr::Binary { op, left, right, position } => ExprView::Binary {
                op: *op,
                left: Box::new((**left)@),
                right: Box::new((**right)@),
                position: *position,
            },
            Expr::Conditional { condition, first, second, position } => ExprView::Conditional {
                condition: Box::new((**condition)@),
                first: Box::new((**first)@),
                second: Box::new((**second)@),
                position: *position,
            },
            Expr::Call { function, arguments, position } => ExprView::Call {
                function: *function,
                arguments: expr_views(arguments@),
                position: *position,
            },
            Expr::List { items, position } => ExprView::List {
                items: expr_views(items@),
                position: *position,
            },
        }
    }
}

/// `expr_views` keeps the length and maps each expression to its view.
pub proof fn lemma_expr_views(items: Seq<Expr>)
    ensures
        expr_views(items).len() == items.len(),
        forall|i: int| 0 <= i < items.len() ==> (#[trigger] expr_views(items)[i]) == items[i]@,
    decreases items.len(),
{
    if items.len() > 0 {
        let front = expr_views(items.drop_last());
        lemma_expr_views(items.drop_last());
        assert(expr_views(items) == front.push(items.last()@));
        assert forall|i: int| 0 <= i < items.len() implies (#[trigger] expr_views(items)[i])
            == items[i]@ by {
            if i < items.len() - 1 {
                assert(front[i] == items.drop_last()[i]@);
            }
        }
    }
}

/// `expr_views` of a sequence with one more expression.
pub proof fn lemma_expr_views_push(items: Seq<Expr>, last: Expr)
    ensures
        expr_views(items.push(last)) == expr_views(items).push(last@),
{
    assert(items.push(last).drop_last() =~= items);
}

/// The value of `e` where the variables have the values that `scope` gives
/// them, or the first error met. Operands, arguments and items are
/// evaluated from left to right; of a conditional only the chosen branch is.
pub open spec fn eval(e: ExprView, scope: Map<Seq<char>, ValueView>) -> Result<
    ValueView,
    ErrorView,
>
    decreases e, 0nat,
{
    match e {
        ExprView::Literal { value, position } => Ok(value),
        ExprView::Variable { name, position } => if scope.contains_key(name) {
            Ok(scope[name])
        } else {
            Err(ErrorView::UnknownVariable { name, position })
        },
        ExprView::Unary { op, operand, position } => match eval(*operand, scope) {
            Ok(value) => op.result(value, position),
            Err(error) => Err(error),
        },
        ExprView::Binary { op, left, right, position } => match eval(*left, scope) {
            Ok(l) => match eval(*right, scope) {
                Ok(r) => op.result(l, r, position),
                Err(error) => Err(error),
            },
            Err(error) => Err(error),
        },
        ExprView::Conditional { condition, first, second, position } => match eval(
            *condition,
            scope,
        ) {
            Ok(ValueView::Boolean(chosen)) => if chosen {
                eval(*first, scope)
            } else {
                eval(*second, scope)
            },
            Ok(other) => Err(
                ErrorView::TypeMismatch {
                    operator: Operation::Conditional,
                    operands: seq![other.kind()],
                    position,
                },
            ),
            Err(error) => Err(error),
        },
        ExprView::Call { function, arguments, position } => if arguments.len()
            != function.arity_spec() {
            Err(
                ErrorView::ArityMismatch {
                    function,
                    expected: function.arity_spec(),
                    actual: arguments.len() as usize,
                    position,
                },
            )
        } else {
            match eval_all(arguments, arguments.len(), scope) {
                Ok(values) => function.result(values, position),
                Err(error) => Err(error),
            }
        },
        ExprView::List { items, position } => match eval_all(items, items.len(), scope) {
            Ok(values) => Ok(ValueView::List(values)),
            Err(error) => Err(error),
        },
    }
}

/// The values of the first `n` of `items`, or the first error met.
pub open spec fn eval_all(items: Seq<ExprView>, n: nat, scope: Map<Seq<char>, ValueView>) -> Result<
    Seq<ValueView>,
    ErrorView,
>
    decreases items, n,
{
    if n == 0 || n > items.len() {
        Ok(Seq::empty())
    } else {
        match eval_all(items, (n - 1) as nat, scope) {
            Ok(values) => match eval(items[n - 1], scope) {
                Ok(value) => Ok(values.push(value)),
                Err(error) => Err(error),
            },
            Err(error) => Err(error),
        }
    }
}

/// Whether `error` is one that evaluation raises: every kind but a syntax
/// error and an interruption.
pub open spec fn raised_by_evaluation(error: ErrorView) -> bool {
    error is UnknownVariable || error is TypeMismatch || error is Domain || error is ArityMismatch
}

/// Evaluation as such raises neither a syntax error nor `Interrupted`.
pub proof fn lemma_eval_errors(e: ExprView, scope: Map<Seq<char>, ValueView>)
    ensures
        eval(e, scope) matches Err(error) ==> raised_by_evaluation(error),
    decreases e, 0nat,
{
    match e {
        ExprView::Literal { .. } => {},
        ExprView::Variable { .. } => {},
        ExprView::Unary { op, operand, position } => {
            lemma_eval_errors(*operand, scope);
        },
        ExprView::Binary { op, left, right, position } => {
            lemma_eval_errors(*left, scope);
            lemma_eval_errors(*right, scope);
        },
        ExprView::Conditional { condition, first, second, position } => {
            lemma_eval_errors(*condition, scope);
            lemma_eval_errors(*first, scope);
            lemma_eval_errors(*second, scope);
        },
        ExprView::Call { function, arguments, position } => {
            lemma_eval_all_errors(arguments, arguments.len(), scope);
        },
        ExprView::List { items, position } => {
            lemma_eval_all_errors(items, items.len(), scope);
        },
    }
}

/// The evaluation of a sequence raises neither a syntax error nor
/// `Interrupted`, and gives as many values as it was asked for.
pub proof fn lemma_eval_all_errors(
    items: Seq<ExprView>,
    n: nat,
    scope: Map<Seq<char>, ValueView>,
)
    requires
        n <= items.len(),
    ensures
        match eval_all(items, n, scope) {
            Ok(values) => values.len() == n,
            Err(error) => raised_by_evaluation(error),
        },
    decreases items, n,
{
    if n > 0 {
        lemma_eval_all_errors(items, (n - 1) as nat, scope);
        lemma_eval_errors(items[n - 1], scope);
    }
}

/// An error among the first items is the error of the whole sequence.
pub proof fn lemma_eval_all_error(
    items: Seq<ExprView>,
    failed: nat,
    n: nat,
    scope: Map<Seq<char>, ValueView>,
)
    requires
        failed < n <= items.len(),
        eval_all(items, failed, scope) is Ok,
        eval(items[failed as int], scope) is Err,
    ensures
        eval_all(items, n, scope) == Err::<Seq<ValueView>, ErrorView>(
            eval(items[failed as int], scope)->Err_0,
        ),
    decreases n,
{
    if n > failed + 1 {
        lemma_eval_all_error(items, failed, (n - 1) as nat, scope);
    }
}

/// What the evaluation of a sequence gives: the values, or an error.
pub open spec fn outcomes_view(r: Result<Vec<Value>, EvalError>) -> Result<
    Seq<ValueView>,
    ErrorView,
> {
    match r {
        Ok(values) => Ok(views(values@)),
        Err(error) => Err(error@),
    }
}

fn eval_items<I: Interrupt>(items: &Vec<Expr>, scope: &Scope, signal: &I) -> (r: Result<
    Vec<Value>,
    EvalError,
>)
    requires
        signal.settled() != Some(true),
    ensures
        admits(
            signal.settled(),
            outcomes_view(r),
            eval_all(expr_views(items@), items@.len(), scope@),
            Err(ErrorView::Interrupted),
        ),
    decreases items,
{
    let ghost all = expr_views(items@);
    proof {
        lemma_expr_views(items@);
    }
    let mut values: Vec<Value> = Vec::new();
    let mut i: usize = 0;
    while i < items.len()
        invariant
            i <= items.len(),
            all == expr_views(items@),
            all.len() == items.len(),
            forall|j: int| 0 <= j < items.len() ==> (#[trigger] all[j]) == items@[j]@,
            eval_all(all, i as nat, scope@) == Ok::<Seq<ValueView>, ErrorView>(views(values@)),
            signal.settled() != Some(true),
        decreases items.len() - i,
    {
        assert(decreases_to!(items => items[i as int]));
        assert(all[i as int] == items@[i as int]@);
        match eval_node(&items[i], scope, signal) {
            Ok(value) => {
                proof {
                    lemma_views_push(values@, value);
                }
                values.push(value);
            },
            Err(error) => {
                proof {
                    if error@ == eval(all[i as int], scope@)->Err_0 && eval(
                        all[i as int],
                        scope@,
                    ) is Err {
                        lemma_eval_all_error(all, i as nat, items@.len(), scope@);
                    }
                }
                return Err(error);
            },
        }
        i += 1;
    }
    Ok(values)
}

fn eval_node<I: Interrupt>(expr: &Expr, scope: &Scope, signal: &I) -> (r: Result<
    Value,
    EvalError,
>)
    ensures
        admits(signal.settled(), outcome_view(r), eval(expr@, scope@), Err(ErrorView::Interrupted)),
    decreases expr,
{
    match checkpoint(signal.is_interrupted()) {
        Ok(()) => {},
        Err(error) => {
            return Err(error);
        },
    }
    match expr {
        Expr::Literal { value, position } => Ok(value.duplicate()),
        Expr::Variable { name, position } => match scope.find(name) {
            Some(value) => Ok(value.duplicate()),
            None => Err(EvalError::UnknownVariable { name: name.clone(), position: *position }),
        },
        Expr::Unary { op, operand, position } => {
            let value = match eval_node(operand, scope, signal) {
                Ok(value) => value,
                Err(error) => {
                    return Err(error);
                },
            };
            op.apply(&value, *position)
        },
        Expr::Binary { op, left, right, position } => {
            let l = match eval_node(left, scope, signal) {
                Ok(value) => value,
                Err(error) => {
                    return Err(error);
                },
            };
            let r = match eval_node(right, scope, signal) {
                Ok(value) => value,
                Err(error) => {
                    return Err(error);
                },
            };
            op.apply(&l, &r, *position)
        },
        Expr::Conditional { condition, first, second, position } => {
            let chosen = match eval_node(condition, scope, signal) {
                Ok(value) => value,
                Err(error) => {
                    return Err(error);
                },
            };
            match chosen {
                Value::Boolean(true) => eval_node(first, scope, signal),
                Value::Boolean(false) => eval_node(second, scope, signal),
                other => {
                    let operands = vec![other.kind()];
                    assert(operands@ =~= seq![other@.kind()]);
                    Err(
                        EvalError::TypeMismatch {
                            operator: Operation::Conditional,
                            operands,
                            position: *position,
                        },
                    )
                },
            }
        },
        Expr::Call { function, arguments, position } => {
            proof {
                lemma_expr_views(arguments@);
            }
            if arguments.len() != function.arity() {
                return Err(
                    EvalError::ArityMismatch {
                        function: *function,
                        expected: function.arity(),
                        actual: arguments.len(),
                        position: *position,
                    },
                );
            }
            let values = match eval_items(arguments, scope, signal) {
                Ok(values) => values,
                Err(error) => {
                    return Err(error);
                },
            };
            function.apply(&values, *position)
        },
        Expr::List { items, position } => {
            proof {
                lemma_expr_views(items@);
            }
            match eval_items(items, scope, signal) {
                Ok(values) => Ok(Value::List(values)),
                Err(error) => Err(error),
            }
        },
    }
}

/// Evaluates `expr` with the variables of `scope`. The signal is polled
/// before each node is visited; once it answers that cancellation was
/// requested, the evaluation ends with `Interrupted`, whatever else it would
/// have found.
pub fn evaluate<I: Interrupt>(expr: Expr, scope: &Scope, signal: &I) -> (r: Result<
    Value,
    EvalError,
>)
    ensures
        admits(signal.settled(), outcome_view(r), eval(expr@, scope@), Err(ErrorView::Interrupted)),
        signal.settled() == Some(true) ==> r matches Err(EvalError::Interrupted),
{
    eval_node(&expr, scope, signal)
}

} // verus!
