use expr_eval::ast::{evaluate, Expr};
use expr_eval::error::EvalError;
use expr_eval::eval::evaluate_to_outcome;
use expr_eval::integer::Integer;
use expr_eval::interrupt::Never;
use expr_eval::ops::{BinaryOp, Builtin, Operation, UnaryOp};
use expr_eval::scope::Scope;
use expr_eval::value::{Kind, Value};

fn run(source: &str) -> Result<Value, EvalError> {
    evaluate_to_outcome(source, &Scope::new(), &Never)
}

fn sample_scope() -> Scope {
    let mut scope = Scope::new();
    scope.insert("x", Value::number(5));
    scope.insert("flag", Value::Boolean(true));
    scope.insert("name", Value::Text("Ada".to_string()));
    scope.insert(
        "items",
        Value::List(vec![Value::number(10), Value::number(20), Value::number(30)]),
    );
    scope.insert("nothing", Value::Absence);
    scope
}

fn run_in(source: &str, scope: &Scope) -> Result<Value, EvalError> {
    evaluate_to_outcome(source, scope, &Never)
}

fn text(s: &str) -> Value {
    Value::Text(s.to_string())
}

fn mismatch(operator: Operation, operands: Vec<Kind>, position: usize) -> EvalError {
    EvalError::TypeMismatch { operator, operands, position }
}

fn domain(operation: Operation, operands: Vec<i64>, position: usize) -> EvalError {
    let operands = operands.iter().map(|n| Integer::from_i64(*n)).collect();
    EvalError::Domain { operation, operands, position }
}

fn big(digits: &str) -> Value {
    Value::Number(match digits.strip_prefix('-') {
        Some(rest) => Integer::from_digits(rest).unwrap().negate(),
        None => Integer::from_digits(digits).unwrap(),
    })
}

#[test]
fn arithmetic() {
    assert_eq!(run("1 + 2"), Ok(Value::number(3)));
    assert_eq!(run("1 - 2"), Ok(Value::number(-1)));
    assert_eq!(run("6 * 7"), Ok(Value::number(42)));
    assert_eq!(run("2 + 3 * 4"), Ok(Value::number(14)));
    assert_eq!(run("(2 + 3) * 4"), Ok(Value::number(20)));
    assert_eq!(run("8 - 4 - 2"), Ok(Value::number(2)));
    assert_eq!(run("-3 * -3"), Ok(Value::number(9)));
    assert_eq!(run("- - 3"), Ok(Value::number(3)));
}

#[test]
fn division_rounds_toward_zero() {
    assert_eq!(run("7 / 2"), Ok(Value::number(3)));
    assert_eq!(run("-7 / 2"), Ok(Value::number(-3)));
    assert_eq!(run("7 / -2"), Ok(Value::number(-3)));
    assert_eq!(run("-7 / -2"), Ok(Value::number(3)));
    assert_eq!(run("0 / 5"), Ok(Value::number(0)));
    assert_eq!(run("6 / 3"), Ok(Value::number(2)));
}

#[test]
fn remainder_has_the_sign_of_the_dividend() {
    assert_eq!(run("7 % 3"), Ok(Value::number(1)));
    assert_eq!(run("-7 % 3"), Ok(Value::number(-1)));
    assert_eq!(run("7 % -3"), Ok(Value::number(1)));
    assert_eq!(run("-7 % -3"), Ok(Value::number(-1)));
    assert_eq!(run("6 % 3"), Ok(Value::number(0)));
    assert_eq!(run("5 % -1"), Ok(Value::number(0)));
    assert_eq!(run("(-9223372036854775807 - 1) % -1"), Ok(Value::number(0)));
    assert_eq!(run("0 % 5"), Ok(Value::number(0)));
}

#[test]
fn division_by_zero() {
    assert_eq!(
        run("1 / 0"),
        Err(domain(Operation::Binary(BinaryOp::Divide), vec![1, 0], 2))
    );
    assert_eq!(
        run("7 % (3 - 3)"),
        Err(domain(Operation::Binary(BinaryOp::Remainder), vec![7, 0], 2))
    );
    assert_eq!(
        run("0 / 0"),
        Err(domain(Operation::Binary(BinaryOp::Divide), vec![0, 0], 2))
    );
}

#[test]
fn numbers_have_no_bounds() {
    assert_eq!(run("9223372036854775807 + 1"), Ok(big("9223372036854775808")));
    assert_eq!(run("-9223372036854775807 - 2"), Ok(big("-9223372036854775809")));
    assert_eq!(run("4611686018427387904 * 2"), Ok(big("9223372036854775808")));
    assert_eq!(run("(-9223372036854775807 - 1) / -1"), Ok(big("9223372036854775808")));
    assert_eq!(run("-(-9223372036854775807 - 1)"), Ok(big("9223372036854775808")));
    assert_eq!(run("abs(-9223372036854775807 - 1)"), Ok(big("9223372036854775808")));
    assert_eq!(run("9223372036854775806 + 1"), Ok(Value::number(i64::MAX)));
    assert_eq!(run("-9223372036854775807 - 1"), Ok(Value::number(i64::MIN)));
    assert_eq!(run("4611686018427387904 * -2"), Ok(Value::number(i64::MIN)));
}

#[test]
fn arithmetic_on_large_numbers() {
    assert_eq!(
        run("123456789012345678901234567890 + 987654321098765432109876543210"),
        Ok(big("1111111110111111111011111111100"))
    );
    assert_eq!(
        run("100000000000000000000000000000 - 1"),
        Ok(big("99999999999999999999999999999"))
    );
    assert_eq!(
        run("1 - 100000000000000000000000000000"),
        Ok(big("-99999999999999999999999999999"))
    );
    assert_eq!(
        run("123456789012345678901234567890 * 987654321098765432109876543210"),
        Ok(big("121932631137021795226185032733622923332237463801111263526900"))
    );
    assert_eq!(
        run("-99999999999999999999 * 99999999999999999999"),
        Ok(big("-9999999999999999999800000000000000000001"))
    );
    assert_eq!(
        run("121932631137021795226185032733622923332237463801111263526900 / 987654321098765432109876543210"),
        Ok(big("123456789012345678901234567890"))
    );
    assert_eq!(
        run("121932631137021795226185032733622923332237463801111263526901 % 987654321098765432109876543210"),
        Ok(Value::number(1))
    );
    assert_eq!(
        run("1000000000000000000000000000000 / 7"),
        Ok(big("142857142857142857142857142857"))
    );
    assert_eq!(run("1000000000000000000000000000000 % 7"), Ok(Value::number(1)));
    assert_eq!(
        run("-1000000000000000000000000000000 / 7"),
        Ok(big("-142857142857142857142857142857"))
    );
    assert_eq!(run("-1000000000000000000000000000000 % 7"), Ok(Value::number(-1)));
    assert_eq!(run("1000000000000000000000000000000 % -7"), Ok(Value::number(1)));
    assert_eq!(run("5 / 1000000000000000000000000000000"), Ok(Value::number(0)));
    assert_eq!(run("5 % 1000000000000000000000000000000"), Ok(Value::number(5)));
    assert_eq!(
        run("1000000000 * 1000000000 * 1000000000"),
        Ok(big("1000000000000000000000000000"))
    );
    assert_eq!(
        run("1000000000000000000000000000 / 1000000000"),
        Ok(big("1000000000000000000"))
    );
    assert_eq!(run("999999999 + 1"), Ok(Value::number(1000000000)));
    assert_eq!(run("1000000000 - 1"), Ok(Value::number(999999999)));
    assert_eq!(
        run("100000000000000000000 == 100000000000000000000"),
        Ok(Value::Boolean(true))
    );
    assert_eq!(
        run("100000000000000000000 < 100000000000000000001"),
        Ok(Value::Boolean(true))
    );
    assert_eq!(
        run("-100000000000000000000 < -100000000000000000001"),
        Ok(Value::Boolean(false))
    );
    assert_eq!(
        run("max(100000000000000000000, 99999999999999999999)"),
        Ok(big("100000000000000000000"))
    );
    assert_eq!(
        run("min(-100000000000000000000, 99999999999999999999)"),
        Ok(big("-100000000000000000000"))
    );
    assert_eq!(run("1000000000000000000000 / 0"), Err(EvalError::Domain {
        operation: Operation::Binary(BinaryOp::Divide),
        operands: vec![Integer::from_digits("1000000000000000000000").unwrap(), Integer::zero()],
        position: 23,
    }));
}

#[test]
fn index_beyond_every_list() {
    assert_eq!(
        run("at([1, 2], 100000000000000000000000)").map_err(|e| e.message()),
        Err("domain error at 0: 'at' is undefined for (100000000000000000000000)".to_string())
    );
    assert_eq!(
        run("at([1, 2], -100000000000000000000000)").map_err(|e| e.message()),
        Err("domain error at 0: 'at' is undefined for (-100000000000000000000000)".to_string())
    );
}

#[test]
fn comparisons_of_numbers() {
    assert_eq!(run("1 < 2"), Ok(Value::Boolean(true)));
    assert_eq!(run("2 < 2"), Ok(Value::Boolean(false)));
    assert_eq!(run("2 <= 2"), Ok(Value::Boolean(true)));
    assert_eq!(run("3 <= 2"), Ok(Value::Boolean(false)));
    assert_eq!(run("3 > 2"), Ok(Value::Boolean(true)));
    assert_eq!(run("2 > 2"), Ok(Value::Boolean(false)));
    assert_eq!(run("2 >= 2"), Ok(Value::Boolean(true)));
    assert_eq!(run("1 >= 2"), Ok(Value::Boolean(false)));
    assert_eq!(run("-1 < 0"), Ok(Value::Boolean(true)));
}

#[test]
fn equality_within_one_variant() {
    assert_eq!(run("1 == 1"), Ok(Value::Boolean(true)));
    assert_eq!(run("1 == 2"), Ok(Value::Boolean(false)));
    assert_eq!(run("1 != 2"), Ok(Value::Boolean(true)));
    assert_eq!(run("1 != 1"), Ok(Value::Boolean(false)));
    assert_eq!(run("true == true"), Ok(Value::Boolean(true)));
    assert_eq!(run("true != false"), Ok(Value::Boolean(true)));
    assert_eq!(run("\"a\" == \"a\""), Ok(Value::Boolean(true)));
    assert_eq!(run("\"a\" == \"b\""), Ok(Value::Boolean(false)));
    assert_eq!(run("\"a\" != \"b\""), Ok(Value::Boolean(true)));
    assert_eq!(run("null == null"), Ok(Value::Boolean(true)));
    assert_eq!(run("null != null"), Ok(Value::Boolean(false)));
    assert_eq!(run("[1, 2] == [1, 2]"), Ok(Value::Boolean(true)));
    assert_eq!(run("[1, 2] == [1, 3]"), Ok(Value::Boolean(false)));
    assert_eq!(run("[1, 2] != [1]"), Ok(Value::Boolean(true)));
    assert_eq!(run("[1, \"a\"] == [1, true]"), Ok(Value::Boolean(false)));
    assert_eq!(run("[] == []"), Ok(Value::Boolean(true)));
}

#[test]
fn equality_across_variants_is_an_error() {
    assert_eq!(
        run("1 == true"),
        Err(mismatch(Operation::Binary(BinaryOp::Equal), vec![Kind::Number, Kind::Boolean], 2))
    );
    assert_eq!(
        run("\"1\" != 1"),
        Err(mismatch(Operation::Binary(BinaryOp::NotEqual), vec![Kind::Text, Kind::Number], 4))
    );
    assert_eq!(
        run("null == false"),
        Err(mismatch(Operation::Binary(BinaryOp::Equal), vec![Kind::Absence, Kind::Boolean], 5))
    );
    assert_eq!(
        run("[] == null"),
        Err(mismatch(Operation::Binary(BinaryOp::Equal), vec![Kind::List, Kind::Absence], 3))
    );
}

#[test]
fn logic() {
    assert_eq!(run("true && true"), Ok(Value::Boolean(true)));
    assert_eq!(run("true && false"), Ok(Value::Boolean(false)));
    assert_eq!(run("false && true"), Ok(Value::Boolean(false)));
    assert_eq!(run("false || true"), Ok(Value::Boolean(true)));
    assert_eq!(run("false || false"), Ok(Value::Boolean(false)));
    assert_eq!(run("true || false"), Ok(Value::Boolean(true)));
    assert_eq!(run("!true"), Ok(Value::Boolean(false)));
    assert_eq!(run("!!true"), Ok(Value::Boolean(true)));
    assert_eq!(run("1 < 2 && 2 < 3"), Ok(Value::Boolean(true)));
    assert_eq!(run("true || false && false"), Ok(Value::Boolean(true)));
    assert_eq!(run("(true || false) && false"), Ok(Value::Boolean(false)));
}

#[test]
fn logic_evaluates_both_sides() {
    assert_eq!(
        run("false && 1"),
        Err(mismatch(Operation::Binary(BinaryOp::And), vec![Kind::Boolean, Kind::Number], 6))
    );
    assert_eq!(
        run("true || 1 / 0 == 1"),
        Err(domain(Operation::Binary(BinaryOp::Divide), vec![1, 0], 10))
    );
}

#[test]
fn text_is_joined_by_plus() {
    assert_eq!(run("\"ab\" + \"cd\""), Ok(text("abcd")));
    assert_eq!(run("\"\" + \"\""), Ok(text("")));
    assert_eq!(run("\"a\" + \"b\" + \"c\""), Ok(text("abc")));
    assert_eq!(run_in("name + \"!\"", &sample_scope()), Ok(text("Ada!")));
}

#[test]
fn operators_do_not_convert() {
    assert_eq!(
        run("\"a\" + true"),
        Err(mismatch(Operation::Binary(BinaryOp::Add), vec![Kind::Text, Kind::Boolean], 4))
    );
    assert_eq!(
        run("1 + \"1\""),
        Err(mismatch(Operation::Binary(BinaryOp::Add), vec![Kind::Number, Kind::Text], 2))
    );
    assert_eq!(
        run("true + true"),
        Err(mismatch(Operation::Binary(BinaryOp::Add), vec![Kind::Boolean, Kind::Boolean], 5))
    );
    assert_eq!(
        run("[1] + [2]"),
        Err(mismatch(Operation::Binary(BinaryOp::Add), vec![Kind::List, Kind::List], 4))
    );
    assert_eq!(
        run("\"a\" - \"a\""),
        Err(mismatch(Operation::Binary(BinaryOp::Subtract), vec![Kind::Text, Kind::Text], 4))
    );
    assert_eq!(
        run("null * 2"),
        Err(mismatch(Operation::Binary(BinaryOp::Multiply), vec![Kind::Absence, Kind::Number], 5))
    );
    assert_eq!(
        run("\"a\" < \"b\""),
        Err(mismatch(Operation::Binary(BinaryOp::Less), vec![Kind::Text, Kind::Text], 4))
    );
    assert_eq!(
        run("1 && 0"),
        Err(mismatch(Operation::Binary(BinaryOp::And), vec![Kind::Number, Kind::Number], 2))
    );
    assert_eq!(
        run("1 < 2 < 3"),
        Err(mismatch(Operation::Binary(BinaryOp::Less), vec![Kind::Boolean, Kind::Number], 6))
    );
    assert_eq!(
        run("-true"),
        Err(mismatch(Operation::Unary(UnaryOp::Negate), vec![Kind::Boolean], 0))
    );
    assert_eq!(run("!0"), Err(mismatch(Operation::Unary(UnaryOp::Not), vec![Kind::Number], 0)));
    assert_eq!(
        run("!null"),
        Err(mismatch(Operation::Unary(UnaryOp::Not), vec![Kind::Absence], 0))
    );
}

#[test]
fn conditional_evaluates_the_chosen_branch_only() {
    assert_eq!(run("true ? 1 : 2"), Ok(Value::number(1)));
    assert_eq!(run("false ? 1 : 2"), Ok(Value::number(2)));
    assert_eq!(run("true ? 1 : 1 / 0"), Ok(Value::number(1)));
    assert_eq!(run("false ? 1 / 0 : 2"), Ok(Value::number(2)));
    assert_eq!(run("false ? missing : 2"), Ok(Value::number(2)));
    assert_eq!(
        run("true ? 1 / 0 : 2"),
        Err(domain(Operation::Binary(BinaryOp::Divide), vec![1, 0], 9))
    );
    assert_eq!(run_in("x > 3 ? \"big\" : \"small\"", &sample_scope()), Ok(text("big")));
    assert_eq!(run("1 < 2 ? 2 < 1 ? 10 : 20 : 30"), Ok(Value::number(20)));
}

#[test]
fn conditional_needs_a_boolean() {
    assert_eq!(run("1 ? 2 : 3"), Err(mismatch(Operation::Conditional, vec![Kind::Number], 2)));
    assert_eq!(
        run("null ? 2 : 3"),
        Err(mismatch(Operation::Conditional, vec![Kind::Absence], 5))
    );
}

#[test]
fn variables() {
    let scope = sample_scope();
    assert_eq!(run_in("x", &scope), Ok(Value::number(5)));
    assert_eq!(run_in("x + 1", &scope), Ok(Value::number(6)));
    assert_eq!(run_in("x * x - x", &scope), Ok(Value::number(20)));
    assert_eq!(run_in("flag", &scope), Ok(Value::Boolean(true)));
    assert_eq!(run_in("nothing", &scope), Ok(Value::Absence));
    assert_eq!(run_in("nothing == null", &scope), Ok(Value::Boolean(true)));
    assert_eq!(
        run_in("items", &scope),
        Ok(Value::List(vec![Value::number(10), Value::number(20), Value::number(30)]))
    );
}

#[test]
fn unknown_variables() {
    let scope = sample_scope();
    assert_eq!(
        run_in("y + 1", &scope),
        Err(EvalError::UnknownVariable { name: "y".to_string(), position: 0 })
    );
    assert_eq!(
        run_in("x + yy", &scope),
        Err(EvalError::UnknownVariable { name: "yy".to_string(), position: 4 })
    );
    assert_eq!(
        run_in("X", &scope),
        Err(EvalError::UnknownVariable { name: "X".to_string(), position: 0 })
    );
    assert_eq!(
        run("len"),
        Err(EvalError::UnknownVariable { name: "len".to_string(), position: 0 })
    );
}

#[test]
fn the_scope_is_left_as_it_was() {
    let scope = sample_scope();
    assert_eq!(run_in("x + 1", &scope), Ok(Value::number(6)));
    assert_eq!(run_in("x + 1", &scope), Ok(Value::number(6)));
    assert_eq!(scope.get("x"), Some(&Value::number(5)));
    assert_eq!(scope.get("y"), None);
}

#[test]
fn lists_are_built_from_left_to_right() {
    assert_eq!(run("[]"), Ok(Value::List(Vec::new())));
    assert_eq!(
        run("[1, 1 + 1, \"x\", [true], null]"),
        Ok(Value::List(vec![
            Value::number(1),
            Value::number(2),
            text("x"),
            Value::List(vec![Value::Boolean(true)]),
            Value::Absence,
        ]))
    );
    assert_eq!(
        run("[1, a, 1 / 0]"),
        Err(EvalError::UnknownVariable { name: "a".to_string(), position: 4 })
    );
    assert_eq!(
        run("[1, 1 / 0, a]"),
        Err(domain(Operation::Binary(BinaryOp::Divide), vec![1, 0], 6))
    );
}

#[test]
fn operands_are_evaluated_from_left_to_right() {
    assert_eq!(
        run("a + 1 / 0"),
        Err(EvalError::UnknownVariable { name: "a".to_string(), position: 0 })
    );
    assert_eq!(
        run("1 / 0 + a"),
        Err(domain(Operation::Binary(BinaryOp::Divide), vec![1, 0], 2))
    );
    assert_eq!(
        run("max(a, 1 / 0)"),
        Err(EvalError::UnknownVariable { name: "a".to_string(), position: 4 })
    );
}

#[test]
fn len_counts_characters_and_items() {
    assert_eq!(run("len(\"\")"), Ok(Value::number(0)));
    assert_eq!(run("len(\"abc\")"), Ok(Value::number(3)));
    assert_eq!(run("len(\"héé\")"), Ok(Value::number(3)));
    assert_eq!(run("len([])"), Ok(Value::number(0)));
    assert_eq!(run("len([1, [2, 3]])"), Ok(Value::number(2)));
    assert_eq!(run_in("len(items) + len(name)", &sample_scope()), Ok(Value::number(6)));
    assert_eq!(
        run("len(1)"),
        Err(mismatch(Operation::Call(Builtin::Len), vec![Kind::Number], 0))
    );
    assert_eq!(
        run("len(null)"),
        Err(mismatch(Operation::Call(Builtin::Len), vec![Kind::Absence], 0))
    );
}

#[test]
fn abs_min_max() {
    assert_eq!(run("abs(-3)"), Ok(Value::number(3)));
    assert_eq!(run("abs(3)"), Ok(Value::number(3)));
    assert_eq!(run("abs(0)"), Ok(Value::number(0)));
    assert_eq!(run("min(1, 2)"), Ok(Value::number(1)));
    assert_eq!(run("min(2, 1)"), Ok(Value::number(1)));
    assert_eq!(run("min(-1, -1)"), Ok(Value::number(-1)));
    assert_eq!(run("max(1, 2)"), Ok(Value::number(2)));
    assert_eq!(run("max(2, 1)"), Ok(Value::number(2)));
    assert_eq!(run("max(min(5, 9), abs(-7))"), Ok(Value::number(7)));
    assert_eq!(
        run("abs(\"x\")"),
        Err(mismatch(Operation::Call(Builtin::Abs), vec![Kind::Text], 0))
    );
    assert_eq!(
        run("1 + min(1, true)"),
        Err(mismatch(Operation::Call(Builtin::Min), vec![Kind::Number, Kind::Boolean], 4))
    );
    assert_eq!(
        run("max(null, 1)"),
        Err(mismatch(Operation::Call(Builtin::Max), vec![Kind::Absence, Kind::Number], 0))
    );
}

#[test]
fn at_reads_an_item() {
    let scope = sample_scope();
    assert_eq!(run_in("at(items, 0)", &scope), Ok(Value::number(10)));
    assert_eq!(run_in("at(items, 2)", &scope), Ok(Value::number(30)));
    assert_eq!(run_in("at(items, len(items) - 1)", &scope), Ok(Value::number(30)));
    assert_eq!(run("at([[1], [2, 3]], 1)"), Ok(Value::List(vec![Value::number(2), Value::number(3)])));
    assert_eq!(
        run_in("at(items, 3)", &scope),
        Err(domain(Operation::Call(Builtin::At), vec![3], 0))
    );
    assert_eq!(
        run_in("at(items, -1)", &scope),
        Err(domain(Operation::Call(Builtin::At), vec![-1], 0))
    );
    assert_eq!(run("at([], 0)"), Err(domain(Operation::Call(Builtin::At), vec![0], 0)));
    assert_eq!(
        run("at(1, [])"),
        Err(mismatch(Operation::Call(Builtin::At), vec![Kind::Number, Kind::List], 0))
    );
    assert_eq!(
        run("at(\"abc\", 0)"),
        Err(mismatch(Operation::Call(Builtin::At), vec![Kind::Text, Kind::Number], 0))
    );
}

#[test]
fn wrong_number_of_arguments() {
    assert_eq!(
        run("len()"),
        Err(EvalError::ArityMismatch { function: Builtin::Len, expected: 1, actual: 0, position: 0 })
    );
    assert_eq!(
        run("abs(1, 2)"),
        Err(EvalError::ArityMismatch { function: Builtin::Abs, expected: 1, actual: 2, position: 0 })
    );
    assert_eq!(
        run("1 + min(1)"),
        Err(EvalError::ArityMismatch { function: Builtin::Min, expected: 2, actual: 1, position: 4 })
    );
    assert_eq!(
        run("max(1, 2, 3)"),
        Err(EvalError::ArityMismatch { function: Builtin::Max, expected: 2, actual: 3, position: 0 })
    );
    assert_eq!(
        run("at([1])"),
        Err(EvalError::ArityMismatch { function: Builtin::At, expected: 2, actual: 1, position: 0 })
    );
}

#[test]
fn argument_count_is_checked_before_the_arguments() {
    assert_eq!(
        run("abs(a, 1 / 0)"),
        Err(EvalError::ArityMismatch { function: Builtin::Abs, expected: 1, actual: 2, position: 0 })
    );
}

#[test]
fn a_failed_parse_is_not_evaluated() {
    let scope = sample_scope();
    assert_eq!(
        run_in("missing + (1 / 0", &scope),
        Err(EvalError::Syntax { position: 16, expected: expr_eval::error::Expected::CloseParen })
    );
    assert_eq!(run_in("x +", &scope), run("x +"));
}

#[test]
fn evaluation_is_repeatable() {
    let scope = sample_scope();
    let source = "x > 3 ? [x * 2, len(name), at(items, 1)] : null";
    let first = run_in(source, &scope);
    assert_eq!(
        first,
        Ok(Value::List(vec![Value::number(10), Value::number(3), Value::number(20)]))
    );
    assert_eq!(run_in(source, &scope), first);
    assert_eq!(run_in(" x>3?[x*2,len(name),at(items,1)]:null ", &scope), first);
    assert_eq!(run_in("x / 0", &scope), run_in("x / 0", &scope));
}

#[test]
fn evaluate_takes_a_tree() {
    let tree = Expr::Binary {
        op: BinaryOp::Add,
        left: Box::new(Expr::Variable { name: "x".to_string(), position: 0 }),
        right: Box::new(Expr::Literal { value: Value::number(1), position: 4 }),
        position: 2,
    };
    assert_eq!(evaluate(tree, &sample_scope(), &Never), Ok(Value::number(6)));
    let call = Expr::Call {
        function: Builtin::Max,
        arguments: vec![
            Expr::Literal { value: Value::number(3), position: 0 },
            Expr::Literal { value: Value::number(9), position: 0 },
        ],
        position: 0,
    };
    assert_eq!(evaluate(call, &Scope::new(), &Never), Ok(Value::number(9)));
}

#[test]
fn operators_applied_directly() {
    assert_eq!(
        BinaryOp::Add.apply(&Value::number(2), &Value::number(3), 0),
        Ok(Value::number(5))
    );
    assert_eq!(
        BinaryOp::Divide.apply(&Value::number(1), &Value::number(0), 9),
        Err(domain(Operation::Binary(BinaryOp::Divide), vec![1, 0], 9))
    );
    assert_eq!(UnaryOp::Not.apply(&Value::Boolean(false), 0), Ok(Value::Boolean(true)));
    assert_eq!(UnaryOp::Negate.apply(&Value::number(4), 0), Ok(Value::number(-4)));
    assert_eq!(
        Builtin::Min.apply(&vec![Value::number(4), Value::number(2)], 0),
        Ok(Value::number(2))
    );
    assert_eq!(
        Builtin::Min.apply(&vec![Value::number(4)], 3),
        Err(EvalError::ArityMismatch { function: Builtin::Min, expected: 2, actual: 1, position: 3 })
    );
}

#[test]
fn levels_and_arities() {
    assert_eq!(BinaryOp::Or.level(), 1);
    assert_eq!(BinaryOp::And.level(), 2);
    assert_eq!(BinaryOp::Equal.level(), 3);
    assert_eq!(BinaryOp::NotEqual.level(), 3);
    assert_eq!(BinaryOp::Less.level(), 3);
    assert_eq!(BinaryOp::LessEqual.level(), 3);
    assert_eq!(BinaryOp::Greater.level(), 3);
    assert_eq!(BinaryOp::GreaterEqual.level(), 3);
    assert_eq!(BinaryOp::Add.level(), 4);
    assert_eq!(BinaryOp::Subtract.level(), 4);
    assert_eq!(BinaryOp::Multiply.level(), 5);
    assert_eq!(BinaryOp::Divide.level(), 5);
    assert_eq!(BinaryOp::Remainder.level(), 5);
    assert_eq!(Builtin::Len.arity(), 1);
    assert_eq!(Builtin::Abs.arity(), 1);
    assert_eq!(Builtin::Min.arity(), 2);
    assert_eq!(Builtin::Max.arity(), 2);
    assert_eq!(Builtin::At.arity(), 2);
}
