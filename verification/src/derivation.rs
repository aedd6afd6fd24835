use vstd::prelude::*;
use crate::ast::ExprView;
use crate::error::{ErrorView, Expected};
use crate::grammar::{
    at, binary_of, builtin_named, lemma_parse_binary, lemma_parse_expression, lemma_parse_items,
    lemma_parse_more, lemma_parse_primary, lemma_parse_unary, name_of, number_of, parse_binary,
    parse_expression, parse_items, parse_more, parse_operators, parse_primary, parse_unary,
    text_of,
};
use crate::ops::{BinaryOp, UnaryOp};
use crate::token::{well_formed, Lexeme, Token};
use crate::value::ValueView;

verus! {

// The grammar as a relation, without an order of reading: which tokens
// spell which expression. The levels are those of the rules, loosest first:
//
//   0  conditional
//   1  ||
//   2  &&
//   3  == != < <= > >=
//   4  + -
//   5  * / %
//   6  a prefix operator
//   7  an operand: a literal, a name, a call, a list, or an expression of
//      level 0 in parentheses
//
// What a level spells, every looser level spells too.

/// The highest level.
pub open spec fn operand_level() -> nat {
    7
}

/// Whether the tokens `t[i..j]` of the source `s` spell the expression `e`
/// at `level`.
pub open spec fn spells(
    s: Seq<char>,
    t: Seq<Lexeme>,
    i: int,
    j: int,
    e: ExprView,
    level: nat,
) -> bool
    decreases j - i, 8 - level,
{
    if !(0 <= i < j < t.len()) || level > 7 {
        false
    } else if level == 0 {
        spells(s, t, i, j, e, 1) || (e matches ExprView::Conditional {
            condition,
            first,
            second,
            position,
        } && exists|q: int, c: int|
            i < q < c < j && (#[trigger] t[q]).token is Question && t[q].position == position && (
            #[trigger] t[c]).token is Colon && spells(s, t, i, q, *condition, 1) && spells(
                s,
                t,
                q + 1,
                c,
                *first,
                0,
            ) && spells(s, t, c + 1, j, *second, 0))
    } else if level <= 5 {
        spells(s, t, i, j, e, level + 1) || (e matches ExprView::Binary {
            op,
            left,
            right,
            position,
        } && op.level_spec() == level && exists|k: int|
            i < k < j && (#[trigger] t[k]).token == Token::Binary(op) && t[k].position == position
                && spells(s, t, i, k, *left, level) && spells(
                s,
                t,
                k + 1,
                j,
                *right,
                level + 1,
            ))
    } else if level == 6 {
        spells(s, t, i, j, e, 7) || (e matches ExprView::Unary { op, operand, position }
            && t[i].token == sign_of(op) && t[i].position == position && spells(
            s,
            t,
            i + 1,
            j,
            *operand,
            6,
        ))
    } else {
        let first = t[i];
        match e {
            ExprView::Literal { value, position } => (j == i + 1 && position == first.position
                && literal_of(s, first) == Some(value)) || enclosed(s, t, i, j, e),
            ExprView::Variable { name, position } => (j == i + 1 && position == first.position
                && first.token is Name && name == name_of(s, first)) || enclosed(s, t, i, j, e),
            ExprView::Call { function, arguments, position } => (i + 2 < j && position
                == first.position && first.token is Name && builtin_named(name_of(s, first))
                == Some(function) && t[i + 1].token is OpenParen && t[j - 1].token is CloseParen
                && spells_all(s, t, i + 2, j - 1, arguments)) || enclosed(s, t, i, j, e),
            ExprView::List { items, position } => (i + 1 < j && position == first.position
                && first.token is OpenBracket && t[j - 1].token is CloseBracket && spells_all(
                s,
                t,
                i + 1,
                j - 1,
                items,
            )) || enclosed(s, t, i, j, e),
            _ => enclosed(s, t, i, j, e),
        }
    }
}

/// Whether `t[i..j]` is `e` in parentheses.
pub open spec fn enclosed(s: Seq<char>, t: Seq<Lexeme>, i: int, j: int, e: ExprView) -> bool
    decreases j - i, 0nat,
{
    0 <= i && i + 2 < j < t.len() && t[i].token is OpenParen && t[j - 1].token is CloseParen
        && spells(s, t, i + 1, j - 1, e, 0)
}

/// Whether `t[i..j]` spells the expressions `items`, separated by commas.
pub open spec fn spells_all(
    s: Seq<char>,
    t: Seq<Lexeme>,
    i: int,
    j: int,
    items: Seq<ExprView>,
) -> bool
    decreases j - i, 9nat, items.len(),
{
    if !(0 <= i <= j < t.len()) {
        false
    } else if items.len() == 0 {
        i == j
    } else if items.len() == 1 {
        spells(s, t, i, j, items[0], 0)
    } else {
        exists|k: int|
            i < k < j && (#[trigger] t[k]).token is Comma && spells(s, t, i, k, items[0], 0)
                && spells_all(s, t, k + 1, j, items.drop_first())
    }
}

/// The token that writes a prefix operator.
pub open spec fn sign_of(op: UnaryOp) -> Token {
    match op {
        UnaryOp::Negate => Token::Binary(BinaryOp::Subtract),
        UnaryOp::Not => Token::Bang,
    }
}

/// The value that a token denotes by itself, if it is a literal.
pub open spec fn literal_of(s: Seq<char>, lexeme: Lexeme) -> Option<ValueView> {
    match lexeme.token {
        Token::Number => Some(ValueView::Number(number_of(s, lexeme))),
        Token::Text => Some(ValueView::Text(text_of(s, lexeme))),
        Token::True => Some(ValueView::Boolean(true)),
        Token::False => Some(ValueView::Boolean(false)),
        Token::Null => Some(ValueView::Absence),
        _ => None,
    }
}

/// What a level spells, every looser level spells too.
pub proof fn lemma_looser_level_spells(
    s: Seq<char>,
    t: Seq<Lexeme>,
    i: int,
    j: int,
    e: ExprView,
    tight: nat,
    loose: nat,
)
    requires
        loose <= tight <= 7,
        spells(s, t, i, j, e, tight),
    ensures
        spells(s, t, i, j, e, loose),
    decreases tight - loose,
{
    if loose < tight {
        lemma_looser_level_spells(s, t, i, j, e, tight, loose + 1);
    }
}

/// Whether no operator of level `least` or above stands at index `j`.
pub open spec fn stops_before(t: Seq<Lexeme>, j: int, least: nat) -> bool {
    binary_of(at(t, j).token) matches Some(op) ==> op.level_spec() < least
}

// Soundness: what the parser yields, the tokens that it has read spell.

/// What `parse_expression` yields, the tokens that it has read spell at
/// level 0.
pub proof fn lemma_expression_spells(s: Seq<char>, t: Seq<Lexeme>, i: int)
    requires
        well_formed(s, t),
        0 <= i < t.len(),
    ensures
        parse_expression(s, t, i) matches Ok((e, j)) ==> spells(s, t, i, j, e, 0),
    decreases t.len() - i, 5nat,
{
    lemma_parse_binary(s, t, i, 1);
    lemma_binary_spells(s, t, i, 1);
    if let Ok((condition, q)) = parse_binary(s, t, i, 1) {
        if at(t, q).token is Question {
            lemma_parse_expression(s, t, q + 1);
            lemma_expression_spells(s, t, q + 1);
            if let Ok((first, c)) = parse_expression(s, t, q + 1) {
                if at(t, c).token is Colon {
                    lemma_parse_expression(s, t, c + 1);
                    lemma_expression_spells(s, t, c + 1);
                    if let Ok((second, j)) = parse_expression(s, t, c + 1) {
                        assert(t[q].token is Question && t[c].token is Colon);
                    }
                }
            }
        } else {
            lemma_looser_level_spells(s, t, i, q, condition, 1, 0);
        }
    }
}

/// What `parse_binary` yields, the tokens that it has read spell at level
/// `least`, and no operator of that level or above follows.
pub proof fn lemma_binary_spells(s: Seq<char>, t: Seq<Lexeme>, i: int, least: nat)
    requires
        well_formed(s, t),
        0 <= i < t.len(),
        1 <= least <= 6,
    ensures
        parse_binary(s, t, i, least) matches Ok((e, j)) ==> spells(s, t, i, j, e, least)
            && stops_before(t, j, least),
    decreases t.len() - i, 4nat,
{
    lemma_parse_unary(s, t, i);
    lemma_unary_spells(s, t, i);
    if let Ok((left, j)) = parse_unary(s, t, i) {
        lemma_operators_spell(s, t, i, j, least, left, 6);
    }
}

/// What `parse_operators` yields after an operand that `t[start..i]`
/// spells at level `reached`, the tokens from `start` on spell at level
/// `least`.
pub proof fn lemma_operators_spell(
    s: Seq<char>,
    t: Seq<Lexeme>,
    start: int,
    i: int,
    least: nat,
    left: ExprView,
    reached: nat,
)
    requires
        well_formed(s, t),
        0 <= start < i < t.len(),
        1 <= least <= reached <= 6,
        spells(s, t, start, i, left, reached),
        stops_before(t, i, reached + 1),
    ensures
        parse_operators(s, t, i, least, left) matches Ok((e, j)) ==> spells(s, t, start, j, e, least)
            && stops_before(t, j, least),
    decreases t.len() - i, 3nat,
{
    let taken = match binary_of(at(t, i).token) {
        Some(op) => op.level_spec() >= least,
        None => false,
    };
    if taken {
        let op = binary_of(at(t, i).token)->Some_0;
        let level = op.level_spec();
        lemma_parse_binary(s, t, i + 1, level + 1);
        lemma_binary_spells(s, t, i + 1, level + 1);
        if let Ok((right, j)) = parse_binary(s, t, i + 1, level + 1) {
            let joined = ExprView::Binary {
                op,
                left: Box::new(left),
                right: Box::new(right),
                position: t[i].position,
            };
            lemma_looser_level_spells(s, t, start, i, left, reached, level);
            assert(t[i].token == Token::Binary(op));
            assert(spells(s, t, start, j, joined, level));
            lemma_operators_spell(s, t, start, j, least, joined, level);
        }
    } else {
        lemma_looser_level_spells(s, t, start, i, left, reached, least);
    }
}

/// What `parse_unary` yields, the tokens that it has read spell at level 6.
pub proof fn lemma_unary_spells(s: Seq<char>, t: Seq<Lexeme>, i: int)
    requires
        well_formed(s, t),
        0 <= i < t.len(),
    ensures
        parse_unary(s, t, i) matches Ok((e, j)) ==> spells(s, t, i, j, e, 6),
    decreases t.len() - i, 2nat,
{
    if at(t, i).token == Token::Binary(BinaryOp::Subtract) || at(t, i).token is Bang {
        lemma_parse_unary(s, t, i + 1);
        lemma_unary_spells(s, t, i + 1);
    } else {
        lemma_parse_primary(s, t, i);
        lemma_primary_spells(s, t, i);
        if let Ok((e, j)) = parse_primary(s, t, i) {
            lemma_looser_level_spells(s, t, i, j, e, 7, 6);
        }
    }
}

/// What `parse_primary` yields, the tokens that it has read spell at level
/// 7.
pub proof fn lemma_primary_spells(s: Seq<char>, t: Seq<Lexeme>, i: int)
    requires
        well_formed(s, t),
        0 <= i < t.len(),
    ensures
        parse_primary(s, t, i) matches Ok((e, j)) ==> spells(s, t, i, j, e, 7),
    decreases t.len() - i, 1nat,
{
    lemma_parse_primary(s, t, i);
    match t[i].token {
        Token::Name => {
            if at(t, i + 1).token is OpenParen {
                if builtin_named(name_of(s, t[i])) is Some {
                    lemma_parse_items(s, t, i + 2, Token::CloseParen, Expected::ArgumentEnd);
                    lemma_items_spell(s, t, i + 2, Token::CloseParen, Expected::ArgumentEnd);
                }
            }
        },
        Token::OpenParen => {
            lemma_parse_expression(s, t, i + 1);
            lemma_expression_spells(s, t, i + 1);
            if let Ok((inner, j)) = parse_expression(s, t, i + 1) {
                if at(t, j).token is CloseParen {
                    assert(enclosed(s, t, i, j + 1, inner));
                }
            }
        },
        Token::OpenBracket => {
            lemma_parse_items(s, t, i + 1, Token::CloseBracket, Expected::ItemEnd);
            lemma_items_spell(s, t, i + 1, Token::CloseBracket, Expected::ItemEnd);
        },
        _ => {},
    }
}

/// What `parse_items` yields, the tokens before the closing bracket spell.
pub proof fn lemma_items_spell(
    s: Seq<char>,
    t: Seq<Lexeme>,
    i: int,
    close: Token,
    wanted: Expected,
)
    requires
        well_formed(s, t),
        0 <= i < t.len(),
        close is CloseParen || close is CloseBracket,
    ensures
        parse_items(s, t, i, close, wanted) matches Ok((items, j)) ==> spells_all(
            s,
            t,
            i,
            j - 1,
            items,
        ) && t[j - 1].token == close,
    decreases t.len() - i, 7nat,
{
    lemma_parse_items(s, t, i, close, wanted);
    if at(t, i).token != close {
        lemma_parse_more(s, t, i, close, wanted, Seq::empty());
        lemma_more_spell(s, t, i, close, wanted, Seq::empty());
        if let Ok((items, j)) = parse_more(s, t, i, close, wanted, Seq::empty()) {
            assert(items.subrange(0, items.len() as int) =~= items);
        }
    }
}

/// What `parse_more` adds to `parsed`, the tokens before the closing
/// bracket spell.
pub proof fn lemma_more_spell(
    s: Seq<char>,
    t: Seq<Lexeme>,
    i: int,
    close: Token,
    wanted: Expected,
    parsed: Seq<ExprView>,
)
    requires
        well_formed(s, t),
        0 <= i < t.len(),
        close is CloseParen || close is CloseBracket,
    ensures
        parse_more(s, t, i, close, wanted, parsed) matches Ok((items, j)) ==> items.len()
            > parsed.len() && items.subrange(0, parsed.len() as int) == parsed && spells_all(
            s,
            t,
            i,
            j - 1,
            items.subrange(parsed.len() as int, items.len() as int),
        ) && t[j - 1].token == close,
    decreases t.len() - i, 6nat,
{
    lemma_parse_expression(s, t, i);
    lemma_expression_spells(s, t, i);
    if let Ok((item, k)) = parse_expression(s, t, i) {
        let longer = parsed.push(item);
        if at(t, k).token == close {
            let rest = longer.subrange(parsed.len() as int, longer.len() as int);
            assert(rest =~= seq![item]);
            assert(longer.subrange(0, parsed.len() as int) =~= parsed);
        } else if at(t, k).token is Comma {
            lemma_parse_more(s, t, k + 1, close, wanted, longer);
            lemma_more_spell(s, t, k + 1, close, wanted, longer);
            if let Ok((items, j)) = parse_more(s, t, k + 1, close, wanted, longer) {
                let rest = items.subrange(parsed.len() as int, items.len() as int);
                let tail = items.subrange(longer.len() as int, items.len() as int);
                assert(items.subrange(0, longer.len() as int) == longer);
                assert(items[parsed.len() as int] == longer[parsed.len() as int]);
                assert(rest[0] == item);
                assert(rest.drop_first() =~= tail);
                assert(items.subrange(0, parsed.len() as int) =~= longer.subrange(
                    0,
                    parsed.len() as int,
                ));
                assert(longer.subrange(0, parsed.len() as int) =~= parsed);
                assert(t[k].token is Comma);
                assert(spells_all(s, t, i, j - 1, rest));
            }
        }
    }
}

// Completeness: what the tokens spell, the parser yields.

/// Whether a token can begin an expression.
pub open spec fn begins(token: Token) -> bool {
    token is Number || token is Text || token is True || token is False || token is Null
        || token is Name || token is OpenParen || token is OpenBracket || token is Bang || token
        == Token::Binary(BinaryOp::Subtract)
}

/// What spells an expression begins with a token that can begin one.
pub proof fn lemma_spelling_begins(
    s: Seq<char>,
    t: Seq<Lexeme>,
    i: int,
    j: int,
    e: ExprView,
    level: nat,
)
    requires
        spells(s, t, i, j, e, level),
    ensures
        begins(t[i].token),
    decreases j - i, 8 - level,
{
    if level == 0 {
        if spells(s, t, i, j, e, 1) {
            lemma_spelling_begins(s, t, i, j, e, 1);
        } else {
            if let ExprView::Conditional { condition, first, second, position } = e {
                let (q, c) = choose|q: int, c: int|
                    i < q < c < j && (#[trigger] t[q]).token is Question && t[q].position
                        == position && (#[trigger] t[c]).token is Colon && spells(
                        s,
                        t,
                        i,
                        q,
                        *condition,
                        1,
                    ) && spells(s, t, q + 1, c, *first, 0) && spells(s, t, c + 1, j, *second, 0);
                lemma_spelling_begins(s, t, i, q, *condition, 1);
            }
        }
    } else if level <= 5 {
        if spells(s, t, i, j, e, level + 1) {
            lemma_spelling_begins(s, t, i, j, e, level + 1);
        } else {
            if let ExprView::Binary { op, left, right, position } = e {
                let k = choose|k: int|
                    i < k < j && (#[trigger] t[k]).token == Token::Binary(op) && t[k].position
                        == position && spells(s, t, i, k, *left, level) && spells(
                        s,
                        t,
                        k + 1,
                        j,
                        *right,
                        level + 1,
                    );
                lemma_spelling_begins(s, t, i, k, *left, level);
            }
        }
    } else if level == 6 {
        if spells(s, t, i, j, e, 7) {
            lemma_spelling_begins(s, t, i, j, e, 7);
        }
    } else {
        assert(level == 7);
        if enclosed(s, t, i, j, e) {
            assert(t[i].token is OpenParen);
        } else {
            match e {
                ExprView::Literal { value, position } => {
                    assert(literal_of(s, t[i]) is Some);
                },
                ExprView::Variable { name, position } => {
                    assert(t[i].token is Name);
                },
                ExprView::Call { function, arguments, position } => {
                    assert(t[i].token is Name);
                },
                ExprView::List { items, position } => {
                    assert(t[i].token is OpenBracket);
                },
                _ => {},
            }
        }
    }
}

/// Whether the token at index `j` lets an expression of `level` end before
/// it: it is no `(`, and it is an operator or `?` only where the parser of
/// that level leaves these to the one that called it.
pub open spec fn ends_before(t: Seq<Lexeme>, j: int, level: nat) -> bool {
    let token = at(t, j).token;
    &&& !(token is OpenParen)
    &&& (binary_of(token) matches Some(op) ==> 1 <= level && op.level_spec() <= level)
    &&& (token is Question ==> 1 <= level)
}

/// What `t[i..j]` spells at level 0, `parse_expression` yields from `i`,
/// where the token at `j` ends it.
pub proof fn lemma_spelled_expression_parses(
    s: Seq<char>,
    t: Seq<Lexeme>,
    i: int,
    j: int,
    e: ExprView,
)
    requires
        well_formed(s, t),
        spells(s, t, i, j, e, 0),
        ends_before(t, j, 0),
    ensures
        parse_expression(s, t, i) == Ok::<(ExprView, int), ErrorView>((e, j)),
    decreases j - i, 8nat, 0nat,
{
    if spells(s, t, i, j, e, 1) {
        lemma_spelled_binary_parses(s, t, i, j, e, 1, 1);
    } else {
        if let ExprView::Conditional { condition, first, second, position } = e {
            let (q, c) = choose|q: int, c: int|
                i < q < c < j && (#[trigger] t[q]).token is Question && t[q].position == position
                    && (#[trigger] t[c]).token is Colon && spells(s, t, i, q, *condition, 1)
                    && spells(s, t, q + 1, c, *first, 0) && spells(s, t, c + 1, j, *second, 0);
            lemma_spelled_binary_parses(s, t, i, q, *condition, 1, 1);
            lemma_spelled_expression_parses(s, t, q + 1, c, *first);
            lemma_spelled_expression_parses(s, t, c + 1, j, *second);
        }
    }
}

/// After what `t[i..j]` spells at `level`, `parse_binary` goes on from `j`
/// with that expression as its left operand.
pub proof fn lemma_spelled_binary_parses(
    s: Seq<char>,
    t: Seq<Lexeme>,
    i: int,
    j: int,
    e: ExprView,
    level: nat,
    least: nat,
)
    requires
        well_formed(s, t),
        1 <= least <= level <= 6,
        spells(s, t, i, j, e, level),
        ends_before(t, j, level),
    ensures
        parse_binary(s, t, i, least) == parse_operators(s, t, j, least, e),
    decreases j - i, 8 - level, 1nat,
{
    if level == 6 {
        lemma_spelled_unary_parses(s, t, i, j, e);
    } else if spells(s, t, i, j, e, level + 1) {
        lemma_spelled_binary_parses(s, t, i, j, e, level + 1, least);
    } else {
        if let ExprView::Binary { op, left, right, position } = e {
            let k = choose|k: int|
                i < k < j && (#[trigger] t[k]).token == Token::Binary(op) && t[k].position
                    == position && spells(s, t, i, k, *left, level) && spells(
                    s,
                    t,
                    k + 1,
                    j,
                    *right,
                    level + 1,
                );
            lemma_spelled_binary_parses(s, t, i, k, *left, level, least);
            lemma_spelled_binary_parses(s, t, k + 1, j, *right, level + 1, level + 1);
            assert(parse_binary(s, t, k + 1, level + 1) == Ok::<(ExprView, int), ErrorView>(
                (*right, j),
            ));
        }
    }
}

/// What `t[i..j]` spells at level 6, `parse_unary` yields from `i`.
pub proof fn lemma_spelled_unary_parses(
    s: Seq<char>,
    t: Seq<Lexeme>,
    i: int,
    j: int,
    e: ExprView,
)
    requires
        well_formed(s, t),
        spells(s, t, i, j, e, 6),
        ends_before(t, j, 6),
    ensures
        parse_unary(s, t, i) == Ok::<(ExprView, int), ErrorView>((e, j)),
    decreases j - i, 2nat, 0nat,
{
    if spells(s, t, i, j, e, 7) {
        lemma_spelled_operand_parses(s, t, i, j, e);
    } else {
        if let ExprView::Unary { op, operand, position } = e {
            lemma_spelled_unary_parses(s, t, i + 1, j, *operand);
        }
    }
}

/// What `t[i..j]` spells at level 7, `parse_primary` yields from `i`; it
/// does not begin with a prefix operator.
pub proof fn lemma_spelled_operand_parses(
    s: Seq<char>,
    t: Seq<Lexeme>,
    i: int,
    j: int,
    e: ExprView,
)
    requires
        well_formed(s, t),
        spells(s, t, i, j, e, 7),
        ends_before(t, j, 7),
    ensures
        parse_primary(s, t, i) == Ok::<(ExprView, int), ErrorView>((e, j)),
        !(t[i].token is Bang) && t[i].token != Token::Binary(BinaryOp::Subtract),
    decreases j - i, 1nat, 0nat,
{
    if enclosed(s, t, i, j, e) {
        lemma_spelled_expression_parses(s, t, i + 1, j - 1, e);
    } else {
        match e {
            ExprView::Call { function, arguments, position } => {
                lemma_spelled_items_parse(
                    s,
                    t,
                    i + 2,
                    j - 1,
                    arguments,
                    Token::CloseParen,
                    Expected::ArgumentEnd,
                );
            },
            ExprView::List { items, position } => {
                lemma_spelled_items_parse(
                    s,
                    t,
                    i + 1,
                    j - 1,
                    items,
                    Token::CloseBracket,
                    Expected::ItemEnd,
                );
            },
            _ => {},
        }
    }
}

/// The expressions that `t[i..j]` spells before the closing bracket at `j`,
/// `parse_items` yields from `i`.
pub proof fn lemma_spelled_items_parse(
    s: Seq<char>,
    t: Seq<Lexeme>,
    i: int,
    j: int,
    items: Seq<ExprView>,
    close: Token,
    wanted: Expected,
)
    requires
        well_formed(s, t),
        spells_all(s, t, i, j, items),
        t[j].token == close,
        close is CloseParen || close is CloseBracket,
    ensures
        parse_items(s, t, i, close, wanted) == Ok::<(Seq<ExprView>, int), ErrorView>(
            (items, j + 1),
        ),
    decreases j - i, 10nat, 0nat,
{
    if items.len() == 0 {
        assert(items =~= Seq::empty());
    } else {
        lemma_spelled_items_begin(s, t, i, j, items);
        lemma_spelled_more_parse(s, t, i, j, items, close, wanted, Seq::empty());
        assert(Seq::<ExprView>::empty() + items =~= items);
    }
}

/// What spells expressions begins with a token that can begin one.
pub proof fn lemma_spelled_items_begin(
    s: Seq<char>,
    t: Seq<Lexeme>,
    i: int,
    j: int,
    items: Seq<ExprView>,
)
    requires
        spells_all(s, t, i, j, items),
        items.len() > 0,
    ensures
        begins(t[i].token),
{
    if items.len() == 1 {
        lemma_spelling_begins(s, t, i, j, items[0], 0);
    } else {
        let k = choose|k: int|
            i < k < j && (#[trigger] t[k]).token is Comma && spells(s, t, i, k, items[0], 0)
                && spells_all(s, t, k + 1, j, items.drop_first());
        lemma_spelling_begins(s, t, i, k, items[0], 0);
    }
}

/// The expressions that `t[i..j]` spells before the closing bracket at `j`,
/// `parse_more` adds to `parsed`.
pub proof fn lemma_spelled_more_parse(
    s: Seq<char>,
    t: Seq<Lexeme>,
    i: int,
    j: int,
    items: Seq<ExprView>,
    close: Token,
    wanted: Expected,
    parsed: Seq<ExprView>,
)
    requires
        well_formed(s, t),
        spells_all(s, t, i, j, items),
        items.len() > 0,
        t[j].token == close,
        close is CloseParen || close is CloseBracket,
    ensures
        parse_more(s, t, i, close, wanted, parsed) == Ok::<(Seq<ExprView>, int), ErrorView>(
            (parsed + items, j + 1),
        ),
    decreases j - i, 9nat, 0nat,
{
    if items.len() == 1 {
        lemma_spelled_expression_parses(s, t, i, j, items[0]);
        assert(parsed + items =~= parsed.push(items[0]));
    } else {
        let k = choose|k: int|
            i < k < j && (#[trigger] t[k]).token is Comma && spells(s, t, i, k, items[0], 0)
                && spells_all(s, t, k + 1, j, items.drop_first());
        lemma_spelled_expression_parses(s, t, i, k, items[0]);
        lemma_spelled_more_parse(
            s,
            t,
            k + 1,
            j,
            items.drop_first(),
            close,
            wanted,
            parsed.push(items[0]),
        );
        assert(parsed.push(items[0]) + items.drop_first() =~= parsed + items);
    }
}

// Brackets.

/// How many more tokens `open` than tokens `close` stand in `t[i..j]`.
pub open spec fn surplus(t: Seq<Lexeme>, i: int, j: int, open: Token, close: Token) -> int
    decreases j - i,
{
    if j <= i {
        0
    } else {
        surplus(t, i, j - 1, open, close) + if t[j - 1].token == open {
            1int
        } else if t[j - 1].token == close {
            -1int
        } else {
            0int
        }
    }
}

/// The surplus of a range is the sum of those of its two parts.
pub proof fn lemma_surplus_adds(
    t: Seq<Lexeme>,
    i: int,
    k: int,
    j: int,
    open: Token,
    close: Token,
)
    requires
        i <= k <= j,
    ensures
        surplus(t, i, j, open, close) == surplus(t, i, k, open, close) + surplus(
            t,
            k,
            j,
            open,
            close,
        ),
    decreases j - k,
{
    if k < j {
        lemma_surplus_adds(t, i, k, j - 1, open, close);
    }
}

/// The surplus of one token.
pub proof fn lemma_surplus_of_one(t: Seq<Lexeme>, i: int, open: Token, close: Token)
    ensures
        surplus(t, i, i + 1, open, close) == if t[i].token == open {
            1int
        } else if t[i].token == close {
            -1int
        } else {
            0int
        },
{
    assert(surplus(t, i, i, open, close) == 0);
}

/// Whether `open` and `close` are the two parentheses or the two square
/// brackets.
pub open spec fn paired(open: Token, close: Token) -> bool {
    (open is OpenParen && close is CloseParen) || (open is OpenBracket && close is CloseBracket)
}

/// What spells an expression holds as many closing brackets as opening
/// ones, of either kind.
pub proof fn lemma_spelling_is_balanced(
    s: Seq<char>,
    t: Seq<Lexeme>,
    i: int,
    j: int,
    e: ExprView,
    level: nat,
    open: Token,
    close: Token,
)
    requires
        spells(s, t, i, j, e, level),
        paired(open, close),
    ensures
        surplus(t, i, j, open, close) == 0,
    decreases j - i, 8 - level,
{
    if level == 0 {
        if spells(s, t, i, j, e, 1) {
            lemma_spelling_is_balanced(s, t, i, j, e, 1, open, close);
        } else {
            if let ExprView::Conditional { condition, first, second, position } = e {
                let (q, c) = choose|q: int, c: int|
                    i < q < c < j && (#[trigger] t[q]).token is Question && t[q].position
                        == position && (#[trigger] t[c]).token is Colon && spells(
                        s,
                        t,
                        i,
                        q,
                        *condition,
                        1,
                    ) && spells(s, t, q + 1, c, *first, 0) && spells(s, t, c + 1, j, *second, 0);
                lemma_spelling_is_balanced(s, t, i, q, *condition, 1, open, close);
                lemma_spelling_is_balanced(s, t, q + 1, c, *first, 0, open, close);
                lemma_spelling_is_balanced(s, t, c + 1, j, *second, 0, open, close);
                lemma_surplus_of_one(t, q, open, close);
                lemma_surplus_of_one(t, c, open, close);
                lemma_surplus_adds(t, i, q, j, open, close);
                lemma_surplus_adds(t, q, q + 1, j, open, close);
                lemma_surplus_adds(t, q + 1, c, j, open, close);
                lemma_surplus_adds(t, c, c + 1, j, open, close);
            }
        }
    } else if level <= 5 {
        if spells(s, t, i, j, e, level + 1) {
            lemma_spelling_is_balanced(s, t, i, j, e, level + 1, open, close);
        } else {
            if let ExprView::Binary { op, left, right, position } = e {
                let k = choose|k: int|
                    i < k < j && (#[trigger] t[k]).token == Token::Binary(op) && t[k].position
                        == position && spells(s, t, i, k, *left, level) && spells(
                        s,
                        t,
                        k + 1,
                        j,
                        *right,
                        level + 1,
                    );
                lemma_spelling_is_balanced(s, t, i, k, *left, level, open, close);
                lemma_spelling_is_balanced(s, t, k + 1, j, *right, level + 1, open, close);
                lemma_surplus_of_one(t, k, open, close);
                lemma_surplus_adds(t, i, k, j, open, close);
                lemma_surplus_adds(t, k, k + 1, j, open, close);
            }
        }
    } else if level == 6 {
        if spells(s, t, i, j, e, 7) {
            lemma_spelling_is_balanced(s, t, i, j, e, 7, open, close);
        } else {
            if let ExprView::Unary { op, operand, position } = e {
                lemma_spelling_is_balanced(s, t, i + 1, j, *operand, 6, open, close);
                lemma_surplus_of_one(t, i, open, close);
                lemma_surplus_adds(t, i, i + 1, j, open, close);
            }
        }
    } else {
        lemma_surplus_of_one(t, i, open, close);
        lemma_surplus_of_one(t, j - 1, open, close);
        if enclosed(s, t, i, j, e) {
            lemma_spelling_is_balanced(s, t, i + 1, j - 1, e, 0, open, close);
            lemma_surplus_adds(t, i, i + 1, j, open, close);
            lemma_surplus_adds(t, i + 1, j - 1, j, open, close);
        } else {
            match e {
                ExprView::Call { function, arguments, position } => {
                    lemma_spelled_items_are_balanced(s, t, i + 2, j - 1, arguments, open, close);
                    lemma_surplus_of_one(t, i + 1, open, close);
                    lemma_surplus_adds(t, i, i + 1, j, open, close);
                    lemma_surplus_adds(t, i + 1, i + 2, j, open, close);
                    lemma_surplus_adds(t, i + 2, j - 1, j, open, close);
                },
                ExprView::List { items, position } => {
                    lemma_spelled_items_are_balanced(s, t, i + 1, j - 1, items, open, close);
                    lemma_surplus_adds(t, i, i + 1, j, open, close);
                    lemma_surplus_adds(t, i + 1, j - 1, j, open, close);
                },
                _ => {},
            }
        }
    }
}

/// What spells expressions separated by commas is balanced too.
pub proof fn lemma_spelled_items_are_balanced(
    s: Seq<char>,
    t: Seq<Lexeme>,
    i: int,
    j: int,
    items: Seq<ExprView>,
    open: Token,
    close: Token,
)
    requires
        spells_all(s, t, i, j, items),
        paired(open, close),
    ensures
        surplus(t, i, j, open, close) == 0,
    decreases j - i, 9nat, items.len(),
{
    if items.len() == 1 {
        lemma_spelling_is_balanced(s, t, i, j, items[0], 0, open, close);
    } else if items.len() > 1 {
        let k = choose|k: int|
            i < k < j && (#[trigger] t[k]).token is Comma && spells(s, t, i, k, items[0], 0)
                && spells_all(s, t, k + 1, j, items.drop_first());
        lemma_spelling_is_balanced(s, t, i, k, items[0], 0, open, close);
        lemma_spelled_items_are_balanced(s, t, k + 1, j, items.drop_first(), open, close);
        lemma_surplus_of_one(t, k, open, close);
        lemma_surplus_adds(t, i, k, j, open, close);
        lemma_surplus_adds(t, k, k + 1, j, open, close);
    }
}

} // verus!
