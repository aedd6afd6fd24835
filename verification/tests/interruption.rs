use std::cell::Cell;
use std::sync::atomic::{AtomicBool, Ordering};

use expr_eval::ast::{evaluate, Expr};
use expr_eval::error::EvalError;
use expr_eval::eval::{evaluate_to_outcome, evaluate_to_value};
use expr_eval::interrupt::{checkpoint, Interrupt, Never, Raised};
use expr_eval::parser::parse_string;
use expr_eval::scope::Scope;
use expr_eval::value::Value;

/// Answers `false` to the first `quiet` polls and `true` from then on.
struct After {
    quiet: usize,
    polls: Cell<usize>,
}

impl After {
    fn new(quiet: usize) -> After {
        After { quiet, polls: Cell::new(0) }
    }
}

impl Interrupt for After {
    fn is_interrupted(&self) -> bool {
        let seen = self.polls.get();
        self.polls.set(seen + 1);
        seen >= self.quiet
    }
}

struct Flag {
    raised: AtomicBool,
}

impl Interrupt for Flag {
    fn is_interrupted(&self) -> bool {
        self.raised.load(Ordering::SeqCst)
    }
}

#[test]
fn checkpoint_stops_on_request() {
    assert_eq!(checkpoint(true), Err(EvalError::Interrupted));
    assert_eq!(checkpoint(false), Ok(()));
}

#[test]
fn never_and_raised() {
    assert!(!Never.is_interrupted());
    assert!(Raised.is_interrupted());
}

#[test]
fn raised_before_the_call_interrupts_every_stage() {
    let scope = Scope::new();
    assert_eq!(parse_string("1 + 1", &Raised), Err(EvalError::Interrupted));
    let tree = Expr::Literal { value: Value::number(1), position: 0 };
    assert_eq!(evaluate(tree, &scope, &Raised), Err(EvalError::Interrupted));
    assert_eq!(evaluate_to_outcome("1 + 1", &scope, &Raised), Err(EvalError::Interrupted));
    assert_eq!(evaluate_to_value("1 + 1", &scope, &Raised), Err("interrupted".to_string()));
}

#[test]
fn raised_before_the_call_hides_every_other_error() {
    let scope = Scope::new();
    for source in ["2 +", "$", "y", "1 / 0", "1 + true", "abs()", ""] {
        assert_eq!(evaluate_to_outcome(source, &scope, &Raised), Err(EvalError::Interrupted));
    }
}

#[test]
fn the_first_checkpoint_sees_a_raised_signal() {
    let signal = After::new(0);
    assert_eq!(
        evaluate_to_outcome("1 + 1", &Scope::new(), &signal),
        Err(EvalError::Interrupted)
    );
    assert_eq!(signal.polls.get(), 1);
}

#[test]
fn a_flag_raised_by_the_host_interrupts() {
    let flag = Flag { raised: AtomicBool::new(false) };
    let scope = Scope::new();
    assert_eq!(evaluate_to_outcome("1 + 1", &scope, &flag), Ok(Value::number(2)));
    flag.raised.store(true, Ordering::SeqCst);
    assert_eq!(evaluate_to_outcome("1 + 1", &scope, &flag), Err(EvalError::Interrupted));
}

#[test]
fn interruption_at_any_checkpoint_gives_interrupted() {
    let scope = Scope::new();
    let source = "max(1 + 2 * 3, len([1, 2, 3])) - (true ? 4 : 5)";
    let quiet = After::new(usize::MAX);
    assert_eq!(evaluate_to_outcome(source, &scope, &quiet), Ok(Value::number(3)));
    let polls = quiet.polls.get();
    assert!(polls > 20);
    for n in 0..polls {
        let signal = After::new(n);
        assert_eq!(evaluate_to_outcome(source, &scope, &signal), Err(EvalError::Interrupted));
        assert_eq!(signal.polls.get(), n + 1);
    }
    let enough = After::new(polls);
    assert_eq!(evaluate_to_outcome(source, &scope, &enough), Ok(Value::number(3)));
}

#[test]
fn interruption_comes_before_a_later_error() {
    let scope = Scope::new();
    let quiet = After::new(usize::MAX);
    assert!(matches!(
        evaluate_to_outcome("1 + 2 + 3 + $", &scope, &quiet),
        Err(EvalError::Syntax { position: 12, .. })
    ));
    let polls = quiet.polls.get();
    for n in 0..polls {
        assert_eq!(
            evaluate_to_outcome("1 + 2 + 3 + $", &scope, &After::new(n)),
            Err(EvalError::Interrupted)
        );
    }
}

#[test]
fn the_parser_polls_before_each_token_and_each_operand() {
    let signal = After::new(usize::MAX);
    assert!(parse_string("1 + 2", &signal).is_ok());
    // four tokens with the end, two operands
    assert_eq!(signal.polls.get(), 6);
    let longer = After::new(usize::MAX);
    assert!(parse_string("1 + 2 + 3 + 4", &longer).is_ok());
    assert_eq!(longer.polls.get(), 12);
}

#[test]
fn the_evaluator_polls_at_every_node() {
    let scope = Scope::new();
    let tree = parse_string("[1, 2, 3 + 4]", &Never).unwrap();
    let signal = After::new(usize::MAX);
    assert!(evaluate(tree, &scope, &signal).is_ok());
    // the list, 1, 2, the sum, 3, 4
    assert_eq!(signal.polls.get(), 6);
}

#[test]
fn interruption_while_evaluating_list_items() {
    let scope = Scope::new();
    let tree = parse_string("[1, 2, 3]", &Never).unwrap();
    assert_eq!(evaluate(tree, &scope, &After::new(2)), Err(EvalError::Interrupted));
    let tree = parse_string("[1, 2, 3]", &Never).unwrap();
    assert_eq!(
        evaluate(tree, &scope, &After::new(4)),
        Ok(Value::List(vec![Value::number(1), Value::number(2), Value::number(3)]))
    );
}

#[test]
fn large_input_is_abandoned_early() {
    let mut source = String::from("1");
    for _ in 0..1000 {
        source.push_str(" + 1");
    }
    let signal = After::new(100);
    assert_eq!(
        evaluate_to_outcome(&source, &Scope::new(), &signal),
        Err(EvalError::Interrupted)
    );
    assert_eq!(signal.polls.get(), 101);
    assert_eq!(
        evaluate_to_outcome(&source, &Scope::new(), &Never),
        Ok(Value::number(1001))
    );
}
