use vstd::prelude::*;
use crate::ast::ExprView;
use crate::error::{ErrorView, Expected};
use crate::integer::number_value;
use crate::ops::{BinaryOp, Builtin, UnaryOp};
use crate::token::{lemma_lex_well_formed, lex, well_formed, Lexeme, Token};
use crate::value::ValueView;

verus! {

// The parser as a function of the tokens: what it yields on every input,
// errors included. Which tokens spell which expression is said once more,
// as a relation, in `derivation`; the two are proved to agree.
//
// The rules, loosest binding first. All infix operators associate to the
// left; a conditional associates to the right.
//
//   expression := binary(1) ( "?" expression ":" expression )?
//   binary(n)  := unary ( operator of level n or above, binary(its level + 1) )*
//                 1  ||
//                 2  &&
//                 3  == != < <= > >=
//                 4  + -
//                 5  * / %
//   unary      := ( "-" | "!" ) unary | primary
//   primary    := number | text | "true" | "false" | "null" | name
//               | name "(" items ")" | "(" expression ")" | "[" items "]"
//   items      := ( expression ( "," expression )* )?
//
// Each function takes the tokens `t` of the source `s` and an index `i`, and
// yields the expression that begins there with the index of the token after
// it, or the first error. Where a function goes on from an index that an
// earlier step gave, it first tests that the index has advanced and lies in
// `t`; on the tokens of a source this always holds
// (`lemma_parse_expression`).

/// The token at index `i`, or an end where `t` has none there.
pub open spec fn at(t: Seq<Lexeme>, i: int) -> Lexeme {
    if 0 <= i < t.len() {
        t[i]
    } else {
        Lexeme { token: Token::End, position: 0, end: 0 }
    }
}

/// The error of a token that the parser cannot use where it wanted
/// `wanted`. Where the token itself is invalid, what it lacks is named.
pub open spec fn unexpected(lexeme: Lexeme, wanted: Expected) -> ErrorView {
    ErrorView::Syntax {
        position: lexeme.position,
        expected: match lexeme.token {
            Token::Invalid(lacking) => lacking,
            _ => wanted,
        },
    }
}

/// The number that the digits of a number literal write.
pub open spec fn number_of(s: Seq<char>, lexeme: Lexeme) -> int {
    number_value(s, lexeme.position as int, lexeme.end as int) as int
}

/// The characters of a name.
pub open spec fn name_of(s: Seq<char>, lexeme: Lexeme) -> Seq<char> {
    s.subrange(lexeme.position as int, lexeme.end as int)
}

/// The characters of a text literal, between its quotes.
pub open spec fn text_of(s: Seq<char>, lexeme: Lexeme) -> Seq<char> {
    s.subrange(lexeme.position + 1, lexeme.end - 1)
}

/// The built-in function that a name denotes, if any.
pub open spec fn builtin_named(name: Seq<char>) -> Option<Builtin> {
    if name == "len"@ {
        Some(Builtin::Len)
    } else if name == "abs"@ {
        Some(Builtin::Abs)
    } else if name == "min"@ {
        Some(Builtin::Min)
    } else if name == "max"@ {
        Some(Builtin::Max)
    } else if name == "at"@ {
        Some(Builtin::At)
    } else {
        None
    }
}

/// The binary operator that a token spells, if any.
pub open spec fn binary_of(token: Token) -> Option<BinaryOp> {
    match token {
        Token::Binary(op) => Some(op),
        _ => None,
    }
}

/// The rule `expression`.
pub open spec fn parse_expression(s: Seq<char>, t: Seq<Lexeme>, i: int) -> Result<
    (ExprView, int),
    ErrorView,
>
    decreases t.len() - i, 5nat,
{
    match parse_binary(s, t, i, 1) {
        Err(error) => Err(error),
        Ok((condition, j)) => if at(t, j).token is Question && i < j < t.len() {
            match parse_expression(s, t, j + 1) {
                Err(error) => Err(error),
                Ok((first, k)) => if at(t, k).token is Colon && j < k < t.len() {
                    match parse_expression(s, t, k + 1) {
                        Err(error) => Err(error),
                        Ok((second, end)) => Ok(
                            (
                                ExprView::Conditional {
                                    condition: Box::new(condition),
                                    first: Box::new(first),
                                    second: Box::new(second),
                                    position: t[j].position,
                                },
                                end,
                            ),
                        ),
                    }
                } else {
                    Err(unexpected(at(t, k), Expected::Colon))
                },
            }
        } else {
            Ok((condition, j))
        },
    }
}

/// The rule `binary(least)`: an operand and the operators of level `least`
/// or above that follow it.
pub open spec fn parse_binary(s: Seq<char>, t: Seq<Lexeme>, i: int, least: nat) -> Result<
    (ExprView, int),
    ErrorView,
>
    decreases t.len() - i, 4nat,
{
    match parse_unary(s, t, i) {
        Err(error) => Err(error),
        Ok((left, j)) => if i <= j <= t.len() {
            parse_operators(s, t, j, least, left)
        } else {
            Ok((left, j))
        },
    }
}

/// Goes on after the operand `left`: while an operator of level `least` or
/// above follows, it takes the operand on its right, which binds tighter,
/// and makes the two one operand.
pub open spec fn parse_operators(
    s: Seq<char>,
    t: Seq<Lexeme>,
    i: int,
    least: nat,
    left: ExprView,
) -> Result<(ExprView, int), ErrorView>
    decreases t.len() - i, 3nat,
{
    match binary_of(at(t, i).token) {
        Some(op) if op.level_spec() >= least && 0 <= i < t.len() => match parse_binary(
            s,
            t,
            i + 1,
            op.level_spec() + 1,
        ) {
            Err(error) => Err(error),
            Ok((right, j)) => if i < j <= t.len() {
                parse_operators(
                    s,
                    t,
                    j,
                    least,
                    ExprView::Binary {
                        op,
                        left: Box::new(left),
                        right: Box::new(right),
                        position: t[i].position,
                    },
                )
            } else {
                Ok((left, i))
            },
        },
        _ => Ok((left, i)),
    }
}

/// The rule `unary`.
pub open spec fn parse_unary(s: Seq<char>, t: Seq<Lexeme>, i: int) -> Result<
    (ExprView, int),
    ErrorView,
>
    decreases t.len() - i, 2nat,
{
    let sign = match at(t, i).token {
        Token::Binary(BinaryOp::Subtract) => Some(UnaryOp::Negate),
        Token::Bang => Some(UnaryOp::Not),
        _ => None,
    };
    match sign {
        Some(op) if 0 <= i < t.len() => match parse_unary(s, t, i + 1) {
            Err(error) => Err(error),
            Ok((operand, j)) => Ok(
                (ExprView::Unary { op, operand: Box::new(operand), position: t[i].position }, j),
            ),
        },
        _ => parse_primary(s, t, i),
    }
}

/// The rule `primary`.
pub open spec fn parse_primary(s: Seq<char>, t: Seq<Lexeme>, i: int) -> Result<
    (ExprView, int),
    ErrorView,
>
    decreases t.len() - i, 1nat,
{
    let lexeme = at(t, i);
    let position = lexeme.position;
    if !(0 <= i < t.len()) {
        Err(unexpected(lexeme, Expected::Operand))
    } else {
        match lexeme.token {
            Token::Number => Ok(
                (
                    ExprView::Literal {
                        value: ValueView::Number(number_of(s, lexeme)),
                        position,
                    },
                    i + 1,
                ),
            ),
            Token::Text => Ok(
                (ExprView::Literal { value: ValueView::Text(text_of(s, lexeme)), position }, i + 1),
            ),
            Token::True => Ok(
                (ExprView::Literal { value: ValueView::Boolean(true), position }, i + 1),
            ),
            Token::False => Ok(
                (ExprView::Literal { value: ValueView::Boolean(false), position }, i + 1),
            ),
            Token::Null => Ok((ExprView::Literal { value: ValueView::Absence, position }, i + 1)),
            Token::Name => if at(t, i + 1).token is OpenParen {
                match builtin_named(name_of(s, lexeme)) {
                    None => Err(ErrorView::Syntax { position, expected: Expected::Function }),
                    Some(function) => match parse_items(
                        s,
                        t,
                        i + 2,
                        Token::CloseParen,
                        Expected::ArgumentEnd,
                    ) {
                        Err(error) => Err(error),
                        Ok((arguments, end)) => Ok(
                            (ExprView::Call { function, arguments, position }, end),
                        ),
                    },
                }
            } else {
                Ok((ExprView::Variable { name: name_of(s, lexeme), position }, i + 1))
            },
            Token::OpenParen => match parse_expression(s, t, i + 1) {
                Err(error) => Err(error),
                Ok((inner, j)) => if at(t, j).token is CloseParen {
                    Ok((inner, j + 1))
                } else {
                    Err(unexpected(at(t, j), Expected::CloseParen))
                },
            },
            Token::OpenBracket => match parse_items(
                s,
                t,
                i + 1,
                Token::CloseBracket,
                Expected::ItemEnd,
            ) {
                Err(error) => Err(error),
                Ok((items, end)) => Ok((ExprView::List { items, position }, end)),
            },
            _ => Err(unexpected(lexeme, Expected::Operand)),
        }
    }
}

/// The expressions from index `i` up to the token `close`, separated by
/// commas, and the index after `close`.
pub open spec fn parse_items(
    s: Seq<char>,
    t: Seq<Lexeme>,
    i: int,
    close: Token,
    wanted: Expected,
) -> Result<(Seq<ExprView>, int), ErrorView>
    decreases t.len() - i, 7nat,
{
    if at(t, i).token == close {
        Ok((Seq::empty(), i + 1))
    } else {
        parse_more(s, t, i, close, wanted, Seq::empty())
    }
}

/// Goes on after the expressions `parsed` and a comma.
pub open spec fn parse_more(
    s: Seq<char>,
    t: Seq<Lexeme>,
    i: int,
    close: Token,
    wanted: Expected,
    parsed: Seq<ExprView>,
) -> Result<(Seq<ExprView>, int), ErrorView>
    decreases t.len() - i, 6nat,
{
    match parse_expression(s, t, i) {
        Err(error) => Err(error),
        Ok((item, j)) => if at(t, j).token == close {
            Ok((parsed.push(item), j + 1))
        } else if at(t, j).token is Comma && i < j < t.len() {
            parse_more(s, t, j + 1, close, wanted, parsed.push(item))
        } else {
            Err(unexpected(at(t, j), wanted))
        },
    }
}

/// The expression that the tokens `t` of the source `s` spell.
pub open spec fn parse_tokens(s: Seq<char>, t: Seq<Lexeme>) -> Result<ExprView, ErrorView> {
    match parse_expression(s, t, 0) {
        Err(error) => Err(error),
        Ok((expr, end)) => if at(t, end).token is End {
            Ok(expr)
        } else {
            Err(unexpected(at(t, end), Expected::Operator))
        },
    }
}

/// The expression that the source `s` spells, or the first syntax error.
pub open spec fn parse(s: Seq<char>) -> Result<ExprView, ErrorView> {
    parse_tokens(s, lex(s, 0))
}

/// Whether a token can be the last one of an expression.
pub open spec fn closes(token: Token) -> bool {
    token is Number || token is Text || token is True || token is False || token is Null
        || token is Name || token is CloseParen || token is CloseBracket
}

/// What holds of every step of the parser from index `i`: where it
/// succeeds, it has advanced, has stayed before the last token, and has
/// ended on a token that can end an expression; where it fails, the error is
/// a syntax error at a position of the source.
pub open spec fn sound<T>(t: Seq<Lexeme>, length: nat, i: int, r: Result<(T, int), ErrorView>) -> bool {
    match r {
        Ok((_, end)) => i < end < t.len() && closes(t[end - 1].token),
        Err(error) => error matches ErrorView::Syntax { position, .. } && position <= length,
    }
}

/// `parse_expression` is sound in the sense of [`sound`].
pub proof fn lemma_parse_expression(s: Seq<char>, t: Seq<Lexeme>, i: int)
    requires
        well_formed(s, t),
        0 <= i < t.len(),
    ensures
        sound(t, s.len(), i, parse_expression(s, t, i)),
    decreases t.len() - i, 5nat,
{
    lemma_parse_binary(s, t, i, 1);
    if let Ok((condition, j)) = parse_binary(s, t, i, 1) {
        if at(t, j).token is Question {
            lemma_parse_expression(s, t, j + 1);
            if let Ok((first, k)) = parse_expression(s, t, j + 1) {
                if at(t, k).token is Colon {
                    lemma_parse_expression(s, t, k + 1);
                }
            }
        }
    }
}

/// `parse_binary` is sound in the sense of [`sound`].
pub proof fn lemma_parse_binary(s: Seq<char>, t: Seq<Lexeme>, i: int, least: nat)
    requires
        well_formed(s, t),
        0 <= i < t.len(),
    ensures
        sound(t, s.len(), i, parse_binary(s, t, i, least)),
    decreases t.len() - i, 4nat,
{
    lemma_parse_unary(s, t, i);
    if let Ok((left, j)) = parse_unary(s, t, i) {
        lemma_parse_operators(s, t, j, least, left);
    }
}

/// `parse_operators` is sound in the sense of [`sound`]: it ends at `i` or
/// after it.
pub proof fn lemma_parse_operators(
    s: Seq<char>,
    t: Seq<Lexeme>,
    i: int,
    least: nat,
    left: ExprView,
)
    requires
        well_formed(s, t),
        0 < i < t.len(),
        closes(t[i - 1].token),
    ensures
        sound(t, s.len(), i - 1, parse_operators(s, t, i, least, left)),
    decreases t.len() - i, 3nat,
{
    if let Some(op) = binary_of(at(t, i).token) {
        if op.level_spec() >= least {
            lemma_parse_binary(s, t, i + 1, op.level_spec() + 1);
            if let Ok((right, j)) = parse_binary(s, t, i + 1, op.level_spec() + 1) {
                lemma_parse_operators(
                    s,
                    t,
                    j,
                    least,
                    ExprView::Binary {
                        op,
                        left: Box::new(left),
                        right: Box::new(right),
                        position: t[i].position,
                    },
                );
            }
        }
    }
}

/// `parse_unary` is sound in the sense of [`sound`].
pub proof fn lemma_parse_unary(s: Seq<char>, t: Seq<Lexeme>, i: int)
    requires
        well_formed(s, t),
        0 <= i < t.len(),
    ensures
        sound(t, s.len(), i, parse_unary(s, t, i)),
    decreases t.len() - i, 2nat,
{
    if at(t, i).token == Token::Binary(BinaryOp::Subtract) || at(t, i).token is Bang {
        lemma_parse_unary(s, t, i + 1);
    } else {
        lemma_parse_primary(s, t, i);
    }
}

/// `parse_primary` is sound in the sense of [`sound`].
pub proof fn lemma_parse_primary(s: Seq<char>, t: Seq<Lexeme>, i: int)
    requires
        well_formed(s, t),
        0 <= i < t.len(),
    ensures
        sound(t, s.len(), i, parse_primary(s, t, i)),
    decreases t.len() - i, 1nat,
{
    match t[i].token {
        Token::Name => {
            if at(t, i + 1).token is OpenParen {
                if builtin_named(name_of(s, t[i])) is Some {
                    lemma_parse_items(s, t, i + 2, Token::CloseParen, Expected::ArgumentEnd);
                }
            }
        },
        Token::OpenParen => {
            lemma_parse_expression(s, t, i + 1);
        },
        Token::OpenBracket => {
            lemma_parse_items(s, t, i + 1, Token::CloseBracket, Expected::ItemEnd);
        },
        _ => {},
    }
}

/// `parse_items` is sound in the sense of [`sound`].
pub proof fn lemma_parse_items(
    s: Seq<char>,
    t: Seq<Lexeme>,
    i: int,
    close: Token,
    wanted: Expected,
)
    requires
        well_formed(s, t),
        0 <= i < t.len(),
        close is CloseParen || close is CloseBracket,
    ensures
        sound(t, s.len(), i, parse_items(s, t, i, close, wanted)),
    decreases t.len() - i, 7nat,
{
    if at(t, i).token != close {
        lemma_parse_more(s, t, i, close, wanted, Seq::empty());
    }
}

/// `parse_more` is sound in the sense of [`sound`].
pub proof fn lemma_parse_more(
    s: Seq<char>,
    t: Seq<Lexeme>,
    i: int,
    close: Token,
    wanted: Expected,
    parsed: Seq<ExprView>,
)
    requires
        well_formed(s, t),
        0 <= i < t.len(),
        close is CloseParen || close is CloseBracket,
    ensures
        sound(t, s.len(), i, parse_more(s, t, i, close, wanted, parsed)),
    decreases t.len() - i, 6nat,
{
    lemma_parse_expression(s, t, i);
    if let Ok((item, j)) = parse_expression(s, t, i) {
        if at(t, j).token != close && at(t, j).token is Comma {
            lemma_parse_more(s, t, j + 1, close, wanted, parsed.push(item));
        }
    }
}

/// Every error of the parser is a syntax error at a position of the
/// source.
pub proof fn lemma_parse_fails_with_syntax_error(s: Seq<char>)
    requires
        s.len() <= usize::MAX,
    ensures
        parse(s) matches Err(error) ==> error matches ErrorView::Syntax { position, .. }
            && position <= s.len(),
{
    lemma_lex_well_formed(s, 0);
    lemma_parse_expression(s, lex(s, 0), 0);
}

} // verus!
