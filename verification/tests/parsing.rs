use expr_eval::ast::Expr;
use expr_eval::error::{EvalError, Expected};
use expr_eval::integer::Integer;
use expr_eval::interrupt::{Never, Raised};
use expr_eval::ops::{BinaryOp, Builtin, UnaryOp};
use expr_eval::parser::parse_string;
use expr_eval::value::Value;

fn big(digits: &str) -> Integer {
    Integer::from_digits(digits).unwrap()
}

fn number(n: i64, position: usize) -> Expr {
    Expr::Literal { value: Value::number(n), position }
}

fn name(text: &str, position: usize) -> Expr {
    Expr::Variable { name: text.to_string(), position }
}

fn binary(op: BinaryOp, left: Expr, right: Expr, position: usize) -> Expr {
    Expr::Binary { op, left: Box::new(left), right: Box::new(right), position }
}

fn unary(op: UnaryOp, operand: Expr, position: usize) -> Expr {
    Expr::Unary { op, operand: Box::new(operand), position }
}

fn parsed(source: &str) -> Expr {
    parse_string(source, &Never).unwrap()
}

fn syntax_error(source: &str) -> (usize, Expected) {
    match parse_string(source, &Never) {
        Err(EvalError::Syntax { position, expected }) => (position, expected),
        other => panic!("no syntax error: {:?}", other),
    }
}

#[test]
fn literals() {
    assert_eq!(parsed("42"), number(42, 0));
    assert_eq!(parsed("  7 "), number(7, 2));
    assert_eq!(parsed("true"), Expr::Literal { value: Value::Boolean(true), position: 0 });
    assert_eq!(parsed("false"), Expr::Literal { value: Value::Boolean(false), position: 0 });
    assert_eq!(parsed("null"), Expr::Literal { value: Value::Absence, position: 0 });
    assert_eq!(
        parsed("\"hi there\""),
        Expr::Literal { value: Value::Text("hi there".to_string()), position: 0 }
    );
    assert_eq!(parsed("\"\""), Expr::Literal { value: Value::Text(String::new()), position: 0 });
    assert_eq!(
        parsed("\"é+1\""),
        Expr::Literal { value: Value::Text("é+1".to_string()), position: 0 }
    );
}

#[test]
fn numbers_of_any_size() {
    assert_eq!(
        parsed("123456789012345678901234567890"),
        Expr::Literal { value: Value::Number(big("123456789012345678901234567890")), position: 0 }
    );
    assert_eq!(parsed("0000"), number(0, 0));
    assert_eq!(
        parsed("-9223372036854775808"),
        unary(
            UnaryOp::Negate,
            Expr::Literal { value: Value::Number(big("9223372036854775808")), position: 1 },
            0
        )
    );
}

#[test]
fn names() {
    assert_eq!(parsed("x"), name("x", 0));
    assert_eq!(parsed(" total_2 "), name("total_2", 1));
    assert_eq!(parsed("len"), name("len", 0));
    assert_eq!(parsed("_"), name("_", 0));
}

#[test]
fn multiplication_before_addition() {
    assert_eq!(
        parsed("2 + 3 * 4"),
        binary(
            BinaryOp::Add,
            number(2, 0),
            binary(BinaryOp::Multiply, number(3, 4), number(4, 8), 6),
            2
        )
    );
    assert_eq!(
        parsed("2 * 3 + 4"),
        binary(
            BinaryOp::Add,
            binary(BinaryOp::Multiply, number(2, 0), number(3, 4), 2),
            number(4, 8),
            6
        )
    );
}

#[test]
fn binary_operators_associate_to_the_left() {
    assert_eq!(
        parsed("8-4-2"),
        binary(
            BinaryOp::Subtract,
            binary(BinaryOp::Subtract, number(8, 0), number(4, 2), 1),
            number(2, 4),
            3
        )
    );
    assert_eq!(
        parsed("8/4%3"),
        binary(
            BinaryOp::Remainder,
            binary(BinaryOp::Divide, number(8, 0), number(4, 2), 1),
            number(3, 4),
            3
        )
    );
}

#[test]
fn levels_from_loosest_to_tightest() {
    // a || b && c == d + e * f
    assert_eq!(
        parsed("a||b&&c==d+e*f"),
        binary(
            BinaryOp::Or,
            name("a", 0),
            binary(
                BinaryOp::And,
                name("b", 3),
                binary(
                    BinaryOp::Equal,
                    name("c", 6),
                    binary(
                        BinaryOp::Add,
                        name("d", 9),
                        binary(BinaryOp::Multiply, name("e", 11), name("f", 13), 12),
                        10
                    ),
                    7
                ),
                4
            ),
            1
        )
    );
    // a * b + c < d && e || f
    assert_eq!(
        parsed("a*b+c<d&&e||f"),
        binary(
            BinaryOp::Or,
            binary(
                BinaryOp::And,
                binary(
                    BinaryOp::Less,
                    binary(
                        BinaryOp::Add,
                        binary(BinaryOp::Multiply, name("a", 0), name("b", 2), 1),
                        name("c", 4),
                        3
                    ),
                    name("d", 6),
                    5
                ),
                name("e", 9),
                7
            ),
            name("f", 12),
            10
        )
    );
}

#[test]
fn comparisons_share_one_level() {
    assert_eq!(
        parsed("1<2>=3"),
        binary(
            BinaryOp::GreaterEqual,
            binary(BinaryOp::Less, number(1, 0), number(2, 2), 1),
            number(3, 5),
            3
        )
    );
}

#[test]
fn unary_binds_tighter_than_multiplication() {
    assert_eq!(
        parsed("-2 * 3"),
        binary(BinaryOp::Multiply, unary(UnaryOp::Negate, number(2, 1), 0), number(3, 5), 3)
    );
    assert_eq!(
        parsed("2 * -3"),
        binary(BinaryOp::Multiply, number(2, 0), unary(UnaryOp::Negate, number(3, 5), 4), 2)
    );
    assert_eq!(
        parsed("2 - -3"),
        binary(BinaryOp::Subtract, number(2, 0), unary(UnaryOp::Negate, number(3, 5), 4), 2)
    );
    assert_eq!(
        parsed("!-!x"),
        unary(UnaryOp::Not, unary(UnaryOp::Negate, unary(UnaryOp::Not, name("x", 3), 2), 1), 0)
    );
}

#[test]
fn parentheses_group() {
    assert_eq!(
        parsed("(2 + 3) * 4"),
        binary(
            BinaryOp::Multiply,
            binary(BinaryOp::Add, number(2, 1), number(3, 5), 3),
            number(4, 10),
            8
        )
    );
    assert_eq!(parsed("((7))"), number(7, 2));
    assert_eq!(parsed("-(1)"), unary(UnaryOp::Negate, number(1, 2), 0));
}

#[test]
fn conditional_is_loosest_and_associates_to_the_right() {
    assert_eq!(
        parsed("a || b ? 1 : 2"),
        Expr::Conditional {
            condition: Box::new(binary(BinaryOp::Or, name("a", 0), name("b", 5), 2)),
            first: Box::new(number(1, 9)),
            second: Box::new(number(2, 13)),
            position: 7,
        }
    );
    assert_eq!(
        parsed("a?b:c?d:e"),
        Expr::Conditional {
            condition: Box::new(name("a", 0)),
            first: Box::new(name("b", 2)),
            second: Box::new(Expr::Conditional {
                condition: Box::new(name("c", 4)),
                first: Box::new(name("d", 6)),
                second: Box::new(name("e", 8)),
                position: 5,
            }),
            position: 1,
        }
    );
    assert_eq!(
        parsed("a?b?c:d:e"),
        Expr::Conditional {
            condition: Box::new(name("a", 0)),
            first: Box::new(Expr::Conditional {
                condition: Box::new(name("b", 2)),
                first: Box::new(name("c", 4)),
                second: Box::new(name("d", 6)),
                position: 3,
            }),
            second: Box::new(name("e", 8)),
            position: 1,
        }
    );
}

#[test]
fn lists() {
    assert_eq!(parsed("[]"), Expr::List { items: Vec::new(), position: 0 });
    assert_eq!(parsed("[1]"), Expr::List { items: vec![number(1, 1)], position: 0 });
    assert_eq!(
        parsed("[1, x, [2]]"),
        Expr::List {
            items: vec![
                number(1, 1),
                name("x", 4),
                Expr::List { items: vec![number(2, 8)], position: 7 }
            ],
            position: 0,
        }
    );
}

#[test]
fn calls() {
    assert_eq!(
        parsed("len(x)"),
        Expr::Call { function: Builtin::Len, arguments: vec![name("x", 4)], position: 0 }
    );
    assert_eq!(
        parsed("max(1, 2 + 3)"),
        Expr::Call {
            function: Builtin::Max,
            arguments: vec![
                number(1, 4),
                binary(BinaryOp::Add, number(2, 7), number(3, 11), 9)
            ],
            position: 0,
        }
    );
    assert_eq!(
        parsed("abs ( )"),
        Expr::Call { function: Builtin::Abs, arguments: Vec::new(), position: 0 }
    );
    assert_eq!(
        parsed("min(at(x,0),1)"),
        Expr::Call {
            function: Builtin::Min,
            arguments: vec![
                Expr::Call {
                    function: Builtin::At,
                    arguments: vec![name("x", 7), number(0, 9)],
                    position: 4
                },
                number(1, 12)
            ],
            position: 0,
        }
    );
}

#[test]
fn missing_operand() {
    assert_eq!(syntax_error(""), (0, Expected::Operand));
    assert_eq!(syntax_error("   "), (3, Expected::Operand));
    assert_eq!(syntax_error("2 +"), (3, Expected::Operand));
    assert_eq!(syntax_error("2 + * 3"), (4, Expected::Operand));
    assert_eq!(syntax_error("-"), (1, Expected::Operand));
    assert_eq!(syntax_error("("), (1, Expected::Operand));
    assert_eq!(syntax_error("()"), (1, Expected::Operand));
    assert_eq!(syntax_error("[1,]"), (3, Expected::Operand));
    assert_eq!(syntax_error("a ? : b"), (4, Expected::Operand));
    assert_eq!(syntax_error(")"), (0, Expected::Operand));
}

#[test]
fn leftover_token() {
    assert_eq!(syntax_error("1 2"), (2, Expected::Operator));
    assert_eq!(syntax_error("1 )"), (2, Expected::Operator));
    assert_eq!(syntax_error("x y"), (2, Expected::Operator));
    assert_eq!(syntax_error("[1] [2]"), (4, Expected::Operator));
    assert_eq!(syntax_error("a ? b : c : d"), (10, Expected::Operator));
}

#[test]
fn unmatched_delimiters() {
    assert_eq!(syntax_error("(1 + 2"), (6, Expected::CloseParen));
    assert_eq!(syntax_error("(1 2)"), (3, Expected::CloseParen));
    assert_eq!(syntax_error("(1]"), (2, Expected::CloseParen));
    assert_eq!(syntax_error("[1, 2"), (5, Expected::ItemEnd));
    assert_eq!(syntax_error("[1 2]"), (3, Expected::ItemEnd));
    assert_eq!(syntax_error("[1)"), (2, Expected::ItemEnd));
    assert_eq!(syntax_error("max(1, 2"), (8, Expected::ArgumentEnd));
    assert_eq!(syntax_error("max(1 2)"), (6, Expected::ArgumentEnd));
    assert_eq!(syntax_error("max(1]"), (5, Expected::ArgumentEnd));
}

#[test]
fn conditional_without_colon() {
    assert_eq!(syntax_error("a ? b"), (5, Expected::Colon));
    assert_eq!(syntax_error("a ? b c"), (6, Expected::Colon));
    assert_eq!(syntax_error("(a ? b)"), (6, Expected::Colon));
}

#[test]
fn unknown_function() {
    assert_eq!(syntax_error("foo(1)"), (0, Expected::Function));
    assert_eq!(syntax_error("1 + length(x)"), (4, Expected::Function));
    assert_eq!(syntax_error("Len(x)"), (0, Expected::Function));
}

#[test]
fn invalid_tokens_name_what_they_lack() {
    assert_eq!(syntax_error("1 + $"), (4, Expected::Character));
    assert_eq!(syntax_error("1 $"), (2, Expected::Character));
    assert_eq!(syntax_error("a = b"), (2, Expected::Character));
    assert_eq!(syntax_error("\"abc"), (4, Expected::CloseQuote));
    assert_eq!(syntax_error("1 + \"abc"), (8, Expected::CloseQuote));
}

#[test]
fn first_error_in_reading_order_is_reported() {
    assert_eq!(syntax_error("1 + + $"), (4, Expected::Operand));
    assert_eq!(syntax_error("(1 2 $"), (3, Expected::CloseParen));
    assert_eq!(syntax_error("foo(1 +"), (0, Expected::Function));
}

#[test]
fn raised_signal_stops_parsing() {
    assert_eq!(parse_string("1 + 1", &Raised), Err(EvalError::Interrupted));
    assert_eq!(parse_string("1 +", &Raised), Err(EvalError::Interrupted));
    assert_eq!(parse_string("", &Raised), Err(EvalError::Interrupted));
}

#[test]
fn parsing_twice_gives_the_same_tree() {
    assert_eq!(parsed("a ? [1, -2] : max(3, 4)"), parsed("a ? [1, -2] : max(3, 4)"));
    assert_eq!(parse_string("1 +", &Never), parse_string("1 +", &Never));
}

#[test]
fn names_and_texts_keep_their_characters() {
    assert_eq!(parsed("alpha_9 + \"b c\""), binary(
        BinaryOp::Add,
        name("alpha_9", 0),
        Expr::Literal { value: Value::Text("b c".to_string()), position: 10 },
        8
    ));
}
