use vstd::prelude::*;
use crate::ast::{expr_views, lemma_expr_views_push, Expr, ExprView};
use crate::error::{ErrorView, EvalError, Expected};
use crate::grammar::{
    builtin_named, parse, parse_binary, parse_expression, parse_items, parse_more,
    parse_operators, parse_primary, parse_unary, unexpected,
};
use crate::integer::Integer;
use crate::interrupt::{admits, checkpoint, Interrupt};
use crate::ops::{BinaryOp, Builtin, UnaryOp};
use crate::text::{append_chars, characters};
use crate::token::{lemma_lex_well_formed, matches_word, tokenize, well_formed, Lexeme, Token};
use crate::value::Value;

verus! {

/// What a step of the parser gives: an expression and the index of the
/// token after it, or an error.
pub open spec fn parsed_view(r: Result<(Expr, usize), EvalError>) -> Result<
    (ExprView, int),
    ErrorView,
> {
    match r {
        Ok((expr, end)) => Ok((expr@, end as int)),
        Err(error) => Err(error@),
    }
}

/// What the parser gives for a sequence of expressions.
pub open spec fn items_view(r: Result<(Vec<Expr>, usize), EvalError>) -> Result<
    (Seq<ExprView>, int),
    ErrorView,
> {
    match r {
        Ok((items, end)) => Ok((expr_views(items@), end as int)),
        Err(error) => Err(error@),
    }
}

/// What the parser gives for a source: an expression or an error.
pub open spec fn tree_view(r: Result<Expr, EvalError>) -> Result<ExprView, ErrorView> {
    match r {
        Ok(expr) => Ok(expr@),
        Err(error) => Err(error@),
    }
}

fn refuse(lexeme: Lexeme, wanted: Expected) -> (error: EvalError)
    ensures
        error@ == unexpected(lexeme, wanted),
{
    let expected = match lexeme.token {
        Token::Invalid(lacking) => lacking,
        _ => wanted,
    };
    EvalError::Syntax { position: lexeme.position, expected }
}

fn slice(chars: &Vec<char>, from: usize, to: usize) -> (text: String)
    requires
        from <= to <= chars.len(),
    ensures
        text@ == chars@.subrange(from as int, to as int),
{
    let mut text = String::new();
    append_chars(&mut text, chars, from, to);
    assert(text@ =~= chars@.subrange(from as int, to as int));
    text
}

fn builtin(chars: &Vec<char>, from: usize, to: usize) -> (function: Option<Builtin>)
    requires
        from <= to <= chars.len(),
    ensures
        function == builtin_named(chars@.subrange(from as int, to as int)),
{
    if matches_word(chars, from, to, "len") {
        Some(Builtin::Len)
    } else if matches_word(chars, from, to, "abs") {
        Some(Builtin::Abs)
    } else if matches_word(chars, from, to, "min") {
        Some(Builtin::Min)
    } else if matches_word(chars, from, to, "max") {
        Some(Builtin::Max)
    } else if matches_word(chars, from, to, "at") {
        Some(Builtin::At)
    } else {
        None
    }
}

fn parse_conditional<I: Interrupt>(
    chars: &Vec<char>,
    tokens: &Vec<Lexeme>,
    i: usize,
    signal: &I,
) -> (r: Result<(Expr, usize), EvalError>)
    requires
        well_formed(chars@, tokens@),
        i < tokens.len(),
    ensures
        admits(
            signal.settled(),
            parsed_view(r),
            parse_expression(chars@, tokens@, i as int),
            Err(ErrorView::Interrupted),
        ),
        r matches Ok((_, end)) ==> i < end < tokens.len(),
    decreases tokens.len() - i, 5nat,
{
    let (condition, j) = match parse_levels(chars, tokens, i, 1, signal) {
        Ok(parsed) => parsed,
        Err(error) => {
            return Err(error);
        },
    };
    match tokens[j].token {
        Token::Question => {},
        _ => {
            return Ok((condition, j));
        },
    }
    let position = tokens[j].position;
    let (first, k) = match parse_conditional(chars, tokens, j + 1, signal) {
        Ok(parsed) => parsed,
        Err(error) => {
            return Err(error);
        },
    };
    match tokens[k].token {
        Token::Colon => {},
        _ => {
            return Err(refuse(tokens[k], Expected::Colon));
        },
    }
    let (second, end) = match parse_conditional(chars, tokens, k + 1, signal) {
        Ok(parsed) => parsed,
        Err(error) => {
            return Err(error);
        },
    };
    Ok(
        (
            Expr::Conditional {
                condition: Box::new(condition),
                first: Box::new(first),
                second: Box::new(second),
                position,
            },
            end,
        ),
    )
}

fn parse_levels<I: Interrupt>(
    chars: &Vec<char>,
    tokens: &Vec<Lexeme>,
    i: usize,
    least: u8,
    signal: &I,
) -> (r: Result<(Expr, usize), EvalError>)
    requires
        well_formed(chars@, tokens@),
        i < tokens.len(),
        least <= 6,
    ensures
        admits(
            signal.settled(),
            parsed_view(r),
            parse_binary(chars@, tokens@, i as int, least as nat),
            Err(ErrorView::Interrupted),
        ),
        r matches Ok((_, end)) ==> i < end < tokens.len(),
    decreases tokens.len() - i, 4nat,
{
    let (first, start) = match parse_prefixed(chars, tokens, i, signal) {
        Ok(parsed) => parsed,
        Err(error) => {
            return Err(error);
        },
    };
    let mut left = first;
    let mut j = start;
    let ghost goal = parse_binary(chars@, tokens@, i as int, least as nat);
    loop
        invariant
            well_formed(chars@, tokens@),
            i < j < tokens.len(),
            least <= 6,
            signal.settled() != Some(true),
            goal == parse_binary(chars@, tokens@, i as int, least as nat),
            parse_operators(chars@, tokens@, j as int, least as nat, left@) == goal,
        decreases tokens.len() - j,
    {
        let op = match tokens[j].token {
            Token::Binary(op) => op,
            _ => {
                return Ok((left, j));
            },
        };
        if op.level() < least {
            return Ok((left, j));
        }
        let position = tokens[j].position;
        let (right, end) = match parse_levels(chars, tokens, j + 1, op.level() + 1, signal) {
            Ok(parsed) => parsed,
            Err(error) => {
                return Err(error);
            },
        };
        left = Expr::Binary { op, left: Box::new(left), right: Box::new(right), position };
        j = end;
    }
}

fn parse_prefixed<I: Interrupt>(
    chars: &Vec<char>,
    tokens: &Vec<Lexeme>,
    i: usize,
    signal: &I,
) -> (r: Result<(Expr, usize), EvalError>)
    requires
        well_formed(chars@, tokens@),
        i < tokens.len(),
    ensures
        admits(
            signal.settled(),
            parsed_view(r),
            parse_unary(chars@, tokens@, i as int),
            Err(ErrorView::Interrupted),
        ),
        r matches Ok((_, end)) ==> i < end < tokens.len(),
    decreases tokens.len() - i, 2nat,
{
    match checkpoint(signal.is_interrupted()) {
        Ok(()) => {},
        Err(error) => {
            return Err(error);
        },
    }
    let op = match tokens[i].token {
        Token::Binary(BinaryOp::Subtract) => UnaryOp::Negate,
        Token::Bang => UnaryOp::Not,
        _ => {
            return parse_operand(chars, tokens, i, signal);
        },
    };
    let position = tokens[i].position;
    match parse_prefixed(chars, tokens, i + 1, signal) {
        Ok((operand, end)) => Ok((Expr::Unary { op, operand: Box::new(operand), position }, end)),
        Err(error) => Err(error),
    }
}

fn parse_operand<I: Interrupt>(
    chars: &Vec<char>,
    tokens: &Vec<Lexeme>,
    i: usize,
    signal: &I,
) -> (r: Result<(Expr, usize), EvalError>)
    requires
        well_formed(chars@, tokens@),
        i < tokens.len(),
        signal.settled() != Some(true),
    ensures
        admits(
            signal.settled(),
            parsed_view(r),
            parse_primary(chars@, tokens@, i as int),
            Err(ErrorView::Interrupted),
        ),
        r matches Ok((_, end)) ==> i < end < tokens.len(),
    decreases tokens.len() - i, 1nat,
{
    let lexeme = tokens[i];
    let position = lexeme.position;
    match lexeme.token {
        Token::Number => {
            let n = Integer::read(chars, position, lexeme.end);
            Ok((Expr::Literal { value: Value::Number(n), position }, i + 1))
        },
        Token::Text => {
            let text = slice(chars, position + 1, lexeme.end - 1);
            Ok((Expr::Literal { value: Value::Text(text), position }, i + 1))
        },
        Token::True => Ok((Expr::Literal { value: Value::Boolean(true), position }, i + 1)),
        Token::False => Ok((Expr::Literal { value: Value::Boolean(false), position }, i + 1)),
        Token::Null => Ok((Expr::Literal { value: Value::Absence, position }, i + 1)),
        Token::Name => {
            match tokens[i + 1].token {
                Token::OpenParen => {},
                _ => {
                    let name = slice(chars, position, lexeme.end);
                    return Ok((Expr::Variable { name, position }, i + 1));
                },
            }
            let function = match builtin(chars, position, lexeme.end) {
                Some(function) => function,
                None => {
                    return Err(EvalError::Syntax { position, expected: Expected::Function });
                },
            };
            match parse_list(
                chars,
                tokens,
                i + 2,
                Token::CloseParen,
                Expected::ArgumentEnd,
                signal,
            ) {
                Ok((arguments, end)) => Ok((Expr::Call { function, arguments, position }, end)),
                Err(error) => Err(error),
            }
        },
        Token::OpenParen => {
            let (inner, j) = match parse_conditional(chars, tokens, i + 1, signal) {
                Ok(parsed) => parsed,
                Err(error) => {
                    return Err(error);
                },
            };
            match tokens[j].token {
                Token::CloseParen => Ok((inner, j + 1)),
                _ => Err(refuse(tokens[j], Expected::CloseParen)),
            }
        },
        Token::OpenBracket => {
            match parse_list(chars, tokens, i + 1, Token::CloseBracket, Expected::ItemEnd, signal) {
                Ok((items, end)) => Ok((Expr::List { items, position }, end)),
                Err(error) => Err(error),
            }
        },
        _ => Err(refuse(lexeme, Expected::Operand)),
    }
}

fn parse_list<I: Interrupt>(
    chars: &Vec<char>,
    tokens: &Vec<Lexeme>,
    i: usize,
    close: Token,
    wanted: Expected,
    signal: &I,
) -> (r: Result<(Vec<Expr>, usize), EvalError>)
    requires
        well_formed(chars@, tokens@),
        i < tokens.len(),
        signal.settled() != Some(true),
        !close.is_last(),
    ensures
        admits(
            signal.settled(),
            items_view(r),
            parse_items(chars@, tokens@, i as int, close, wanted),
            Err(ErrorView::Interrupted),
        ),
        r matches Ok((_, end)) ==> i < end < tokens.len(),
    decreases tokens.len() - i, 7nat,
{
    let mut items: Vec<Expr> = Vec::new();
    if tokens[i].token == close {
        return Ok((items, i + 1));
    }
    let mut from: usize = i;
    let ghost goal = parse_items(chars@, tokens@, i as int, close, wanted);
    loop
        invariant
            well_formed(chars@, tokens@),
            i <= from < tokens.len(),
            signal.settled() != Some(true),
            !close.is_last(),
            goal == parse_items(chars@, tokens@, i as int, close, wanted),
            parse_more(chars@, tokens@, from as int, close, wanted, expr_views(items@)) == goal,
        decreases tokens.len() - from,
    {
        let (item, j) = match parse_conditional(chars, tokens, from, signal) {
            Ok(parsed) => parsed,
            Err(error) => {
                return Err(error);
            },
        };
        proof {
            lemma_expr_views_push(items@, item);
        }
        items.push(item);
        if tokens[j].token == close {
            return Ok((items, j + 1));
        }
        match tokens[j].token {
            Token::Comma => {},
            _ => {
                return Err(refuse(tokens[j], wanted));
            },
        }
        from = j + 1;
    }
}

/// Parses `input`. The signal is polled before each token is read and
/// before each operand is parsed; once it answers that cancellation was
/// requested, the parse ends with `Interrupted`, whatever else it would have
/// found. Every other error is a syntax error.
pub fn parse_string<I: Interrupt>(input: &str, signal: &I) -> (r: Result<Expr, EvalError>)
    ensures
        admits(signal.settled(), tree_view(r), parse(input@), Err(ErrorView::Interrupted)),
        signal.settled() == Some(true) ==> r matches Err(EvalError::Interrupted),
{
    let chars = characters(input);
    let tokens = match tokenize(&chars, signal) {
        Ok(tokens) => tokens,
        Err(error) => {
            return Err(error);
        },
    };
    proof {
        assert(chars.len() == chars@.len());
        lemma_lex_well_formed(chars@, 0);
    }
    let (expr, end) = match parse_conditional(&chars, &tokens, 0, signal) {
        Ok(parsed) => parsed,
        Err(error) => {
            return Err(error);
        },
    };
    match tokens[end].token {
        Token::End => Ok(expr),
        _ => Err(refuse(tokens[end], Expected::Operator)),
    }
}

} // verus!
