use vstd::prelude::*;
use crate::ast::{eval, lemma_eval_errors, ExprView};
use crate::derivation::{
    lemma_expression_spells, lemma_spelled_expression_parses, lemma_spelling_is_balanced, paired,
    spells, surplus,
};
use crate::error::ErrorView;
use crate::eval::outcome;
use crate::grammar::{
    closes, lemma_parse_expression, lemma_parse_fails_with_syntax_error, parse,
    parse_expression,
};
use crate::integer::number_value;
use crate::interrupt::admits;
use crate::ops::{kinds_of, BinaryOp, Builtin, Operation, UnaryOp};
use crate::text::{decimal, digit_char, is_digit};
use crate::token::{lemma_lex_well_formed, lex, Token};
use crate::value::ValueView;

verus! {

/// Evaluation is deterministic. Two calls on sources that spell the same
/// expression, with the same variables, give the same value or the same
/// error, unless one of them was interrupted.
pub proof fn law_deterministic(
    first_source: Seq<char>,
    second_source: Seq<char>,
    scope: Map<Seq<char>, ValueView>,
    first_signal: Option<bool>,
    second_signal: Option<bool>,
    first: Result<ValueView, ErrorView>,
    second: Result<ValueView, ErrorView>,
)
    requires
        parse(first_source) == parse(second_source),
        admits(first_signal, first, outcome(first_source, scope), Err(ErrorView::Interrupted)),
        admits(second_signal, second, outcome(second_source, scope), Err(ErrorView::Interrupted)),
        first != Err::<ValueView, ErrorView>(ErrorView::Interrupted),
        second != Err::<ValueView, ErrorView>(ErrorView::Interrupted),
    ensures
        first == second,
{
}

/// A source that does not parse yields a syntax error at one of its
/// positions, and the same one whatever the scope holds: nothing is
/// evaluated after a failed parse.
pub proof fn law_failed_parse_is_not_evaluated(
    source: Seq<char>,
    scope: Map<Seq<char>, ValueView>,
)
    requires
        source.len() <= usize::MAX,
        parse(source) is Err,
    ensures
        outcome(source, scope) == Err::<ValueView, ErrorView>(parse(source)->Err_0),
        outcome(source, scope) matches Err(ErrorView::Syntax { position, .. }) && position
            <= source.len(),
{
    lemma_parse_fails_with_syntax_error(source);
}

/// A truncated source fails: one that stops where an expression cannot end
/// (after an operator, an opening bracket, a comma, `?` or `:`) yields a
/// syntax error, and so does one without any token.
pub proof fn law_truncated_source_fails(source: Seq<char>)
    requires
        source.len() <= usize::MAX,
        lex(source, 0).last().token is End,
        lex(source, 0).len() >= 2 ==> !closes(lex(source, 0)[lex(source, 0).len() - 2].token),
    ensures
        parse(source) matches Err(ErrorView::Syntax { .. }),
{
    lemma_lex_well_formed(source, 0);
    lemma_parse_expression(source, lex(source, 0), 0);
    lemma_parse_fails_with_syntax_error(source);
}

/// Interruption comes first. A computation that polls a signal raised
/// before it began gives `Interrupted`, whatever it would have computed.
pub proof fn law_interruption_precedes<T>(got: T, pure: T, stopped: T)
    requires
        admits(Some(true), got, pure, stopped),
    ensures
        got == stopped,
{
}

/// Without cancellation a computation gives what it computes.
pub proof fn law_quiet_signal_changes_nothing<T>(got: T, pure: T, stopped: T)
    requires
        admits(Some(false), got, pure, stopped),
    ensures
        got == pure,
{
}

/// A name that the scope does not bind evaluates to `UnknownVariable` with
/// that name, never to a value.
pub proof fn law_unknown_variable(
    name: Seq<char>,
    position: usize,
    scope: Map<Seq<char>, ValueView>,
)
    requires
        !scope.contains_key(name),
    ensures
        eval(ExprView::Variable { name, position }, scope) == Err::<ValueView, ErrorView>(
            ErrorView::UnknownVariable { name, position },
        ),
{
}

/// A prefix operator yields `TypeMismatch` exactly on the variants that it
/// does not accept.
pub proof fn law_unary_mismatch(op: UnaryOp, operand: ValueView, position: usize)
    ensures
        !op.accepts(operand.kind()) <==> op.result(operand, position) == Err::<
            ValueView,
            ErrorView,
        >(
            ErrorView::TypeMismatch {
                operator: Operation::Unary(op),
                operands: seq![operand.kind()],
                position,
            },
        ),
        op.result(operand, position) matches Err(ErrorView::TypeMismatch { .. }) ==> !op.accepts(
            operand.kind(),
        ),
{
}

/// An infix operator yields `TypeMismatch` exactly on the variants that it
/// does not accept; no operand is converted.
pub proof fn law_binary_mismatch(op: BinaryOp, left: ValueView, right: ValueView, position: usize)
    ensures
        !op.accepts(left.kind(), right.kind()) <==> op.result(left, right, position) == Err::<
            ValueView,
            ErrorView,
        >(op.mismatch(left.kind(), right.kind(), position)),
        op.result(left, right, position) matches Err(ErrorView::TypeMismatch { .. })
            ==> !op.accepts(left.kind(), right.kind()),
{
}

/// A function called with the right number of arguments yields
/// `TypeMismatch` exactly on the variants that it does not accept.
pub proof fn law_call_mismatch(function: Builtin, arguments: Seq<ValueView>, position: usize)
    requires
        arguments.len() == function.arity_spec(),
    ensures
        !function.accepts(kinds_of(arguments)) <==> function.result(arguments, position) == Err::<
            ValueView,
            ErrorView,
        >(function.mismatch(arguments, position)),
        function.result(arguments, position) matches Err(ErrorView::TypeMismatch { .. })
            ==> !function.accepts(kinds_of(arguments)),
{
}

/// An operator node whose operands evaluate to variants that the operator
/// does not accept evaluates to `TypeMismatch` with the operator, those
/// variants and the operator's position.
pub proof fn law_mismatch_is_detected(
    op: BinaryOp,
    left: ExprView,
    right: ExprView,
    position: usize,
    scope: Map<Seq<char>, ValueView>,
)
    requires
        eval(left, scope) is Ok,
        eval(right, scope) is Ok,
        !op.accepts(eval(left, scope)->Ok_0.kind(), eval(right, scope)->Ok_0.kind()),
    ensures
        eval(
            ExprView::Binary { op, left: Box::new(left), right: Box::new(right), position },
            scope,
        ) == Err::<ValueView, ErrorView>(
            op.mismatch(eval(left, scope)->Ok_0.kind(), eval(right, scope)->Ok_0.kind(), position),
        ),
{
}

/// The first error met is the error of the whole: an operator node whose
/// left operand fails, fails with that operand's error, whatever the right
/// operand holds.
pub proof fn law_first_error_wins(
    op: BinaryOp,
    left: ExprView,
    right: ExprView,
    position: usize,
    scope: Map<Seq<char>, ValueView>,
)
    requires
        eval(left, scope) is Err,
    ensures
        eval(
            ExprView::Binary { op, left: Box::new(left), right: Box::new(right), position },
            scope,
        ) == Err::<ValueView, ErrorView>(eval(left, scope)->Err_0),
{
}

/// `Interrupted` always means an interruption: without one, no source
/// yields it.
pub proof fn law_only_a_signal_interrupts(source: Seq<char>, scope: Map<Seq<char>, ValueView>)
    requires
        source.len() <= usize::MAX,
    ensures
        outcome(source, scope) != Err::<ValueView, ErrorView>(ErrorView::Interrupted),
{
    lemma_parse_fails_with_syntax_error(source);
    if let Ok(expr) = parse(source) {
        lemma_eval_errors(expr, scope);
    }
}

/// The value of digits does not depend on what stands around them.
pub proof fn lemma_number_value_depends_on_its_digits(
    s: Seq<char>,
    other: Seq<char>,
    from: int,
    to: int,
)
    requires
        0 <= from <= to <= s.len(),
        to <= other.len(),
        forall|j: int| from <= j < to ==> s[j] == other[j],
    ensures
        number_value(s, from, to) == number_value(other, from, to),
    decreases to - from,
{
    if from < to {
        lemma_number_value_depends_on_its_digits(s, other, from, to - 1);
    }
}

/// A number written in decimal is read back as itself: the notation of
/// messages and the number literals of the source agree.
pub proof fn law_decimal_reads_back(n: nat)
    ensures
        decimal(n).len() > 0,
        forall|j: int| 0 <= j < decimal(n).len() ==> is_digit(#[trigger] decimal(n)[j]),
        number_value(decimal(n), 0, decimal(n).len() as int) == n,
    decreases n,
{
    let all = decimal(n);
    if n >= 10 {
        let front = decimal(n / 10);
        law_decimal_reads_back(n / 10);
        assert(all == front.push(digit_char((n % 10) as int)));
        lemma_number_value_depends_on_its_digits(front, all, 0, front.len() as int);
        assert(all[all.len() - 1] == digit_char((n % 10) as int));
        assert(number_value(all, 0, all.len() as int) == number_value(all, 0, all.len() - 1) * 10
            + (all[all.len() - 1] as int - '0' as int));
    } else {
        assert(all == seq![digit_char(n as int)]);
        assert(number_value(all, 0, 0) == 0);
        assert(number_value(all, 0, 1) == number_value(all, 0, 0) * 10 + (all[0] as int
            - '0' as int));
    }
}

/// Whether the tokens of `s`, up to the end of the source, spell `e`.
pub open spec fn source_spells(s: Seq<char>, e: ExprView) -> bool {
    let t = lex(s, 0);
    t.last().token is End && spells(s, t, 0, t.len() - 1, e, 0)
}

/// The parser implements the grammar: a source parses to an expression if
/// and only if its tokens spell that expression.
pub proof fn law_parser_implements_grammar(s: Seq<char>, e: ExprView)
    requires
        s.len() <= usize::MAX,
    ensures
        parse(s) == Ok::<ExprView, ErrorView>(e) <==> source_spells(s, e),
{
    let t = lex(s, 0);
    lemma_lex_well_formed(s, 0);
    if parse(s) == Ok::<ExprView, ErrorView>(e) {
        lemma_parse_expression(s, t, 0);
        lemma_expression_spells(s, t, 0);
        let end = parse_expression(s, t, 0)->Ok_0.1;
        assert(t[end].token.is_last());
    }
    if source_spells(s, e) {
        lemma_spelled_expression_parses(s, t, 0, t.len() - 1, e);
    }
}

/// The grammar is unambiguous: a source spells one expression at most.
pub proof fn law_grammar_is_unambiguous(s: Seq<char>, first: ExprView, second: ExprView)
    requires
        s.len() <= usize::MAX,
        source_spells(s, first),
        source_spells(s, second),
    ensures
        first == second,
{
    law_parser_implements_grammar(s, first);
    law_parser_implements_grammar(s, second);
}

/// Unmatched brackets are a syntax error: a source whose tokens hold more
/// opening than closing brackets of a kind, or fewer, does not parse.
pub proof fn law_unmatched_brackets_fail(s: Seq<char>, open: Token, close: Token)
    requires
        s.len() <= usize::MAX,
        paired(open, close),
        surplus(lex(s, 0), 0, lex(s, 0).len() - 1, open, close) != 0,
    ensures
        parse(s) matches Err(ErrorView::Syntax { .. }),
{
    lemma_parse_fails_with_syntax_error(s);
    if let Ok(e) = parse(s) {
        law_parser_implements_grammar(s, e);
        lemma_spelling_is_balanced(s, lex(s, 0), 0, lex(s, 0).len() - 1, e, 0, open, close);
    }
}

} // verus!
