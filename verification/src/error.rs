use vstd::prelude::*;
use vstd::string::StringExecFns;
use crate::integer::Integer;
use crate::ops::{Builtin, Operation};
use crate::text::{append_decimal, decimal, signed_decimal};
use crate::value::Kind;

verus! {

/// What the parser would have accepted where it stopped.
#[derive(Clone, Copy, Debug, PartialEq, Eq, Structural)]
pub enum Expected {
    /// The start of an expression: a literal, a name, `(`, `[`, `-` or `!`.
    Operand,
    /// A binary operator, `?`, or the end of the input.
    Operator,
    /// The `)` that closes a parenthesised expression.
    CloseParen,
    /// `,` or the `)` that closes an argument list.
    ArgumentEnd,
    /// `,` or the `]` that closes a list.
    ItemEnd,
    /// The `:` of a conditional.
    Colon,
    /// The `"` that closes a text literal.
    CloseQuote,
    /// A character that can begin a token.
    Character,
    /// The name of a built-in function.
    Function,
}

/// Why an expression has no value.
#[derive(Debug, PartialEq, Eq)]
#[allow(inconsistent_fields)]
pub enum EvalError {
    /// The text is not an expression. `position` counts characters from zero.
    Syntax { position: usize, expected: Expected },
    /// A name that the scope does not bind.
    UnknownVariable { name: String, position: usize },
    /// An operator or function applied to variants that it does not accept.
    TypeMismatch { operator: Operation, operands: Vec<Kind>, position: usize },
    /// An operation without a result on these numbers: a division by zero,
    /// an index outside a list.
    Domain { operation: Operation, operands: Vec<Integer>, position: usize },
    /// A function called with the wrong number of arguments.
    ArityMismatch { function: Builtin, expected: usize, actual: usize, position: usize },
    /// Cancellation was observed.
    Interrupted,
}

/// The mathematical content of an [`EvalError`].
#[allow(inconsistent_fields)]
pub ghost enum ErrorView {
    Syntax { position: usize, expected: Expected },
    UnknownVariable { name: Seq<char>, position: usize },
    TypeMismatch { operator: Operation, operands: Seq<Kind>, position: usize },
    Domain { operation: Operation, operands: Seq<int>, position: usize },
    ArityMismatch { function: Builtin, expected: usize, actual: usize, position: usize },
    Interrupted,
}

/// The numbers that `operands` hold, in order.
pub open spec fn integers(operands: Seq<Integer>) -> Seq<int> {
    Seq::new(operands.len(), |i: int| operands[i]@)
}

impl View for EvalError {
    type V = ErrorView;

    open spec fn view(&self) -> ErrorView {
        match self {
            EvalError::Syntax { position, expected } => ErrorView::Syntax {
                position: *position,
                expected: *expected,
            },
            EvalError::UnknownVariable { name, position } => ErrorView::UnknownVariable {
                name: name@,
                position: *position,
            },
            EvalError::TypeMismatch { operator, operands, position } => ErrorView::TypeMismatch {
                operator: *operator,
                operands: operands@,
                position: *position,
            },
            EvalError::Domain { operation, operands, position } => ErrorView::Domain {
                operation: *operation,
                operands: integers(operands@),
                position: *position,
            },
            EvalError::ArityMismatch { function, expected, actual, position } => {
                ErrorView::ArityMismatch {
                    function: *function,
                    expected: *expected,
                    actual: *actual,
                    position: *position,
                }
            },
            EvalError::Interrupted => ErrorView::Interrupted,
        }
    }
}

impl Kind {
    /// The variant's name in messages.
    pub open spec fn name_view(self) -> Seq<char> {
        match self {
            Kind::Number => "number"@,
            Kind::Boolean => "boolean"@,
            Kind::Text => "text"@,
            Kind::List => "list"@,
            Kind::Absence => "null"@,
        }
    }

    /// The variant's name in messages.
    pub fn name(self) -> (s: &'static str)
        ensures
            s@ == self.name_view(),
    {
        match self {
            Kind::Number => "number",
            Kind::Boolean => "boolean",
            Kind::Text => "text",
            Kind::List => "list",
            Kind::Absence => "null",
        }
    }
}

impl Expected {
    /// What was expected, in words.
    pub open spec fn describe_view(self) -> Seq<char> {
        match self {
            Expected::Operand => "an operand"@,
            Expected::Operator => "an operator or the end of input"@,
            Expected::CloseParen => "')'"@,
            Expected::ArgumentEnd => "',' or ')'"@,
            Expected::ItemEnd => "',' or ']'"@,
            Expected::Colon => "':'"@,
            Expected::CloseQuote => "a closing '\"'"@,
            Expected::Character => "a character that begins a token"@,
            Expected::Function => "the name of a function"@,
        }
    }

    /// What was expected, in words.
    pub fn describe(self) -> (s: &'static str)
        ensures
            s@ == self.describe_view(),
    {
        match self {
            Expected::Operand => "an operand",
            Expected::Operator => "an operator or the end of input",
            Expected::CloseParen => "')'",
            Expected::ArgumentEnd => "',' or ')'",
            Expected::ItemEnd => "',' or ']'",
            Expected::Colon => "':'",
            Expected::CloseQuote => "a closing '\"'",
            Expected::Character => "a character that begins a token",
            Expected::Function => "the name of a function",
        }
    }
}

/// The names of the first `n` of `kinds`, separated by `", "`.
pub open spec fn kinds_text(kinds: Seq<Kind>, n: nat) -> Seq<char>
    decreases n,
{
    if n == 0 {
        Seq::empty()
    } else if n == 1 {
        kinds[0].name_view()
    } else {
        kinds_text(kinds, (n - 1) as nat) + ", "@ + kinds[n - 1].name_view()
    }
}

/// The first `n` of `numbers` in decimal, separated by `", "`.
pub open spec fn numbers_text(numbers: Seq<int>, n: nat) -> Seq<char>
    decreases n,
{
    if n == 0 {
        Seq::empty()
    } else if n == 1 {
        signed_decimal(numbers[0])
    } else {
        numbers_text(numbers, (n - 1) as nat) + ", "@ + signed_decimal(numbers[n - 1])
    }
}

/// The message that describes an error.
pub open spec fn message_view(e: ErrorView) -> Seq<char> {
    match e {
        ErrorView::Syntax { position, expected } => "syntax error at "@ + decimal(position as nat)
            + ": expected "@ + expected.describe_view(),
        ErrorView::UnknownVariable { name, position } => "unknown variable '"@ + name + "' at "@
            + decimal(position as nat),
        ErrorView::TypeMismatch { operator, operands, position } => "type mismatch at "@ + decimal(
            position as nat,
        ) + ": '"@ + operator.symbol_view() + "' does not accept ("@ + kinds_text(
            operands,
            operands.len(),
        ) + ")"@,
        ErrorView::Domain { operation, operands, position } => "domain error at "@ + decimal(
            position as nat,
        ) + ": '"@ + operation.symbol_view() + "' is undefined for ("@ + numbers_text(
            operands,
            operands.len(),
        ) + ")"@,
        ErrorView::ArityMismatch { function, expected, actual, position } => "arity mismatch at "@
            + decimal(position as nat) + ": '"@ + function.name_view() + "' takes "@ + decimal(
            expected as nat,
        ) + " but got "@ + decimal(actual as nat),
        ErrorView::Interrupted => "interrupted"@,
    }
}

fn append_kinds(out: &mut String, kinds: &Vec<Kind>)
    ensures
        final(out)@ == old(out)@ + kinds_text(kinds@, kinds@.len()),
{
    let mut i: usize = 0;
    assert(out@ =~= old(out)@ + kinds_text(kinds@, 0));
    while i < kinds.len()
        invariant
            i <= kinds.len(),
            out@ == old(out)@ + kinds_text(kinds@, i as nat),
        decreases kinds.len() - i,
    {
        if i > 0 {
            out.append(", ");
        }
        out.append(kinds[i].name());
        i += 1;
        assert(out@ =~= old(out)@ + kinds_text(kinds@, i as nat));
    }
}

fn append_numbers(out: &mut String, numbers: &Vec<Integer>)
    ensures
        final(out)@ == old(out)@ + numbers_text(integers(numbers@), numbers@.len()),
{
    let mut i: usize = 0;
    assert(out@ =~= old(out)@ + numbers_text(integers(numbers@), 0));
    while i < numbers.len()
        invariant
            i <= numbers.len(),
            out@ == old(out)@ + numbers_text(integers(numbers@), i as nat),
        decreases numbers.len() - i,
    {
        if i > 0 {
            out.append(", ");
        }
        numbers[i].append_to(out);
        i += 1;
        assert(out@ =~= old(out)@ + numbers_text(integers(numbers@), i as nat));
    }
}

impl EvalError {
    /// The message that describes this error.
    pub fn message(&self) -> (text: String)
        ensures
            text@ == message_view(self@),
    {
        match self {
            EvalError::Syntax { position, expected } => {
                let mut out = String::from_str("syntax error at ");
                append_decimal(&mut out, *position as u64);
                out.append(": expected ");
                out.append(expected.describe());
                assert(out@ =~= message_view(self@));
                out
            },
            EvalError::UnknownVariable { name, position } => {
                let mut out = String::from_str("unknown variable '");
                out.append(name.as_str());
                out.append("' at ");
                append_decimal(&mut out, *position as u64);
                assert(out@ =~= message_view(self@));
                out
            },
            EvalError::TypeMismatch { operator, operands, position } => {
                let mut out = String::from_str("type mismatch at ");
                append_decimal(&mut out, *position as u64);
                out.append(": '");
                out.append(operator.symbol());
                out.append("' does not accept (");
                append_kinds(&mut out, operands);
                out.append(")");
                assert(out@ =~= message_view(self@));
                out
            },
            EvalError::Domain { operation, operands, position } => {
                let mut out = String::from_str("domain error at ");
                append_decimal(&mut out, *position as u64);
                out.append(": '");
                out.append(operation.symbol());
                out.append("' is undefined for (");
                append_numbers(&mut out, operands);
                out.append(")");
                assert(out@ =~= message_view(self@));
                out
            },
            EvalError::ArityMismatch { function, expected, actual, position } => {
                let mut out = String::from_str("arity mismatch at ");
                append_decimal(&mut out, *position as u64);
                out.append(": '");
                out.append(function.name());
                out.append("' takes ");
                append_decimal(&mut out, *expected as u64);
                out.append(" but got ");
                append_decimal(&mut out, *actual as u64);
                assert(out@ =~= message_view(self@));
                out
            },
            EvalError::Interrupted => String::from_str("interrupted"),
        }
    }
}

} // verus!
