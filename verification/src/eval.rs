use vstd::prelude::*;
use crate::ast::{eval, evaluate};
use crate::error::{message_view, ErrorView, EvalError};
use crate::grammar::parse;
use crate::interrupt::{admits, Interrupt};
use crate::ops::outcome_view;
use crate::parser::parse_string;
use crate::scope::Scope;
use crate::value::{Value, ValueView};

verus! {

/// What the text `source` yields with the variables of `scope`, absent
/// cancellation: the error of the parse where it fails, and what the
/// parsed expression evaluates to where it does not. Nothing is evaluated
/// after a failed parse.
pub open spec fn outcome(source: Seq<char>, scope: Map<Seq<char>, ValueView>) -> Result<
    ValueView,
    ErrorView,
> {
    match parse(source) {
        Ok(expr) => eval(expr, scope),
        Err(error) => Err(error),
    }
}

/// An outcome with its error as a message.
pub open spec fn described(r: Result<ValueView, ErrorView>) -> Result<ValueView, Seq<char>> {
    match r {
        Ok(value) => Ok(value),
        Err(error) => Err(message_view(error)),
    }
}

/// What `evaluate_to_value` gives: a value, or a message.
pub open spec fn reported(r: Result<Value, String>) -> Result<ValueView, Seq<char>> {
    match r {
        Ok(value) => Ok(value@),
        Err(message) => Err(message@),
    }
}

/// Parses `input` and evaluates it with the variables of `scope`. The first
/// failure of either stage ends the call. The signal is polled throughout;
/// once it answers that cancellation was requested, the call ends with
/// `Interrupted`.
pub fn evaluate_to_outcome<I: Interrupt>(input: &str, scope: &Scope, signal: &I) -> (r: Result<
    Value,
    EvalError,
>)
    ensures
        admits(
            signal.settled(),
            outcome_view(r),
            outcome(input@, scope@),
            Err(ErrorView::Interrupted),
        ),
        signal.settled() == Some(true) ==> r matches Err(EvalError::Interrupted),
{
    let parsed = match parse_string(input, signal) {
        Ok(expr) => expr,
        Err(error) => {
            return Err(error);
        },
    };
    evaluate(parsed, scope, signal)
}

/// Parses `input` and evaluates it with the variables of `scope`; an error
/// comes as its message.
pub fn evaluate_to_value<I: Interrupt>(input: &str, scope: &Scope, signal: &I) -> (r: Result<
    Value,
    String,
>)
    ensures
        admits(
            signal.settled(),
            reported(r),
            described(outcome(input@, scope@)),
            described(Err(ErrorView::Interrupted)),
        ),
        signal.settled() == Some(true) ==> (r matches Err(message) && message@ == "interrupted"@),
{
    match evaluate_to_outcome(input, scope, signal) {
        Ok(value) => Ok(value),
        Err(error) => Err(error.message()),
    }
}

} // verus!
