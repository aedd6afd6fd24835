use vstd::prelude::*;
use vstd::string::{StrSliceExecFns, StringExecFns};
use crate::error::{integers, ErrorView, EvalError};
use crate::integer::{quotient, remainder, Integer, Order};
use crate::value::{lemma_views, views, Kind, Value, ValueView};

verus! {

/// A prefix operator.
#[derive(Clone, Copy, Debug, PartialEq, Eq, Structural)]
pub enum UnaryOp {
    /// `-`, on a number.
    Negate,
    /// `!`, on a boolean.
    Not,
}

/// An infix operator.
#[derive(Clone, Copy, Debug, PartialEq, Eq, Structural)]
pub enum BinaryOp {
    /// `+`: the sum of two numbers, or two texts joined.
    Add,
    /// `-`
    Subtract,
    /// `*`
    Multiply,
    /// `/`: the quotient, rounded toward zero.
    Divide,
    /// `%`: the remainder, with the sign of the dividend.
    Remainder,
    /// `==`, on two values of one variant.
    Equal,
    /// `!=`, on two values of one variant.
    NotEqual,
    /// `<`, on numbers.
    Less,
    /// `<=`, on numbers.
    LessEqual,
    /// `>`, on numbers.
    Greater,
    /// `>=`, on numbers.
    GreaterEqual,
    /// `&&`, on booleans; both sides are evaluated.
    And,
    /// `||`, on booleans; both sides are evaluated.
    Or,
}

/// A built-in function.
#[derive(Clone, Copy, Debug, PartialEq, Eq, Structural)]
pub enum Builtin {
    /// `len(x)`: the number of characters of a text or of items of a list.
    Len,
    /// `abs(n)`: the absolute value of a number.
    Abs,
    /// `min(a, b)`: the smaller of two numbers.
    Min,
    /// `max(a, b)`: the larger of two numbers.
    Max,
    /// `at(list, i)`: the item of a list at index `i`, counted from zero.
    At,
}

/// What an evaluation error names as its operator.
#[derive(Clone, Copy, Debug, PartialEq, Eq, Structural)]
pub enum Operation {
    Unary(UnaryOp),
    Binary(BinaryOp),
    /// `condition ? first : second`
    Conditional,
    Call(Builtin),
}

impl UnaryOp {
    /// The operator as it is written.
    pub open spec fn symbol_view(self) -> Seq<char> {
        match self {
            UnaryOp::Negate => "-"@,
            UnaryOp::Not => "!"@,
        }
    }

    /// The operator as it is written.
    pub fn symbol(self) -> (s: &'static str)
        ensures
            s@ == self.symbol_view(),
    {
        match self {
            UnaryOp::Negate => "-",
            UnaryOp::Not => "!",
        }
    }
}

impl BinaryOp {
    /// The operator as it is written.
    pub open spec fn symbol_view(self) -> Seq<char> {
        match self {
            BinaryOp::Add => "+"@,
            BinaryOp::Subtract => "-"@,
            BinaryOp::Multiply => "*"@,
            BinaryOp::Divide => "/"@,
            BinaryOp::Remainder => "%"@,
            BinaryOp::Equal => "=="@,
            BinaryOp::NotEqual => "!="@,
            BinaryOp::Less => "<"@,
            BinaryOp::LessEqual => "<="@,
            BinaryOp::Greater => ">"@,
            BinaryOp::GreaterEqual => ">="@,
            BinaryOp::And => "&&"@,
            BinaryOp::Or => "||"@,
        }
    }

    /// The operator as it is written.
    pub fn symbol(self) -> (s: &'static str)
        ensures
            s@ == self.symbol_view(),
    {
        match self {
            BinaryOp::Add => "+",
            BinaryOp::Subtract => "-",
            BinaryOp::Multiply => "*",
            BinaryOp::Divide => "/",
            BinaryOp::Remainder => "%",
            BinaryOp::Equal => "==",
            BinaryOp::NotEqual => "!=",
            BinaryOp::Less => "<",
            BinaryOp::LessEqual => "<=",
            BinaryOp::Greater => ">",
            BinaryOp::GreaterEqual => ">=",
            BinaryOp::And => "&&",
            BinaryOp::Or => "||",
        }
    }

    /// How tightly the operator binds; a higher level binds tighter. All
    /// binary operators associate to the left.
    pub open spec fn level_spec(self) -> nat {
        match self {
            BinaryOp::Or => 1,
            BinaryOp::And => 2,
            BinaryOp::Equal | BinaryOp::NotEqual | BinaryOp::Less | BinaryOp::LessEqual
            | BinaryOp::Greater | BinaryOp::GreaterEqual => 3,
            BinaryOp::Add | BinaryOp::Subtract => 4,
            BinaryOp::Multiply | BinaryOp::Divide | BinaryOp::Remainder => 5,
        }
    }

    /// How tightly the operator binds.
    pub fn level(self) -> (l: u8)
        ensures
            l == self.level_spec(),
            1 <= l <= 5,
    {
        match self {
            BinaryOp::Or => 1,
            BinaryOp::And => 2,
            BinaryOp::Equal | BinaryOp::NotEqual | BinaryOp::Less | BinaryOp::LessEqual
            | BinaryOp::Greater | BinaryOp::GreaterEqual => 3,
            BinaryOp::Add | BinaryOp::Subtract => 4,
            BinaryOp::Multiply | BinaryOp::Divide | BinaryOp::Remainder => 5,
        }
    }
}

impl Builtin {
    /// The function's name as it is written.
    pub open spec fn name_view(self) -> Seq<char> {
        match self {
            Builtin::Len => "len"@,
            Builtin::Abs => "abs"@,
            Builtin::Min => "min"@,
            Builtin::Max => "max"@,
            Builtin::At => "at"@,
        }
    }

    /// The function's name as it is written.
    pub fn name(self) -> (s: &'static str)
        ensures
            s@ == self.name_view(),
    {
        match self {
            Builtin::Len => "len",
            Builtin::Abs => "abs",
            Builtin::Min => "min",
            Builtin::Max => "max",
            Builtin::At => "at",
        }
    }

    /// The number of arguments that the function takes.
    pub open spec fn arity_spec(self) -> usize {
        match self {
            Builtin::Len | Builtin::Abs => 1,
            Builtin::Min | Builtin::Max | Builtin::At => 2,
        }
    }

    /// The number of arguments that the function takes.
    pub fn arity(self) -> (n: usize)
        ensures
            n == self.arity_spec(),
    {
        match self {
            Builtin::Len | Builtin::Abs => 1,
            Builtin::Min | Builtin::Max | Builtin::At => 2,
        }
    }
}

impl Operation {
    /// The operator as it is written.
    pub open spec fn symbol_view(self) -> Seq<char> {
        match self {
            Operation::Unary(op) => op.symbol_view(),
            Operation::Binary(op) => op.symbol_view(),
            Operation::Conditional => "?:"@,
            Operation::Call(function) => function.name_view(),
        }
    }

    /// The operator or function as it is written.
    pub fn symbol(self) -> (s: &'static str)
        ensures
            s@ == self.symbol_view(),
    {
        match self {
            Operation::Unary(op) => op.symbol(),
            Operation::Binary(op) => op.symbol(),
            Operation::Conditional => "?:",
            Operation::Call(function) => function.name(),
        }
    }
}

/// What an evaluation gives: a value or the reason why there is none.
pub open spec fn outcome_view(r: Result<Value, EvalError>) -> Result<ValueView, ErrorView> {
    match r {
        Ok(value) => Ok(value@),
        Err(error) => Err(error@),
    }
}

impl UnaryOp {
    /// Whether the operator is defined on a value of variant `operand`.
    pub open spec fn accepts(self, operand: Kind) -> bool {
        match self {
            UnaryOp::Negate => operand == Kind::Number,
            UnaryOp::Not => operand == Kind::Boolean,
        }
    }

    /// What the operator gives on `operand`.
    pub open spec fn result(self, operand: ValueView, position: usize) -> Result<
        ValueView,
        ErrorView,
    > {
        match (self, operand) {
            (UnaryOp::Negate, ValueView::Number(n)) => Ok(ValueView::Number(-n)),
            (UnaryOp::Not, ValueView::Boolean(b)) => Ok(ValueView::Boolean(!b)),
            _ => Err(
                ErrorView::TypeMismatch {
                    operator: Operation::Unary(self),
                    operands: seq![operand.kind()],
                    position,
                },
            ),
        }
    }

    /// Applies the operator to `operand`; `position` is where the operator
    /// stands in the source.
    pub fn apply(self, operand: &Value, position: usize) -> (r: Result<Value, EvalError>)
        ensures
            outcome_view(r) == self.result(operand@, position),
            !self.accepts(operand@.kind()) ==> r matches Err(EvalError::TypeMismatch { .. }),
    {
        match (self, operand) {
            (UnaryOp::Negate, Value::Number(n)) => Ok(Value::Number(n.negate())),
            (UnaryOp::Not, Value::Boolean(b)) => Ok(Value::Boolean(!*b)),
            _ => {
                let operands = vec![operand.kind()];
                assert(operands@ =~= seq![operand@.kind()]);
                Err(
                    EvalError::TypeMismatch {
                        operator: Operation::Unary(self),
                        operands,
                        position,
                    },
                )
            },
        }
    }
}

impl BinaryOp {
    /// Whether the operator is defined on values of variants `left` and
    /// `right`. No operator converts one variant into another.
    pub open spec fn accepts(self, left: Kind, right: Kind) -> bool {
        match self {
            BinaryOp::Add => left == right && (left == Kind::Number || left == Kind::Text),
            BinaryOp::Equal | BinaryOp::NotEqual => left == right,
            BinaryOp::And | BinaryOp::Or => left == Kind::Boolean && right == Kind::Boolean,
            _ => left == Kind::Number && right == Kind::Number,
        }
    }

    /// The error of an operator that does not accept its operands.
    pub open spec fn mismatch(self, left: Kind, right: Kind, position: usize) -> ErrorView {
        ErrorView::TypeMismatch {
            operator: Operation::Binary(self),
            operands: seq![left, right],
            position,
        }
    }

    /// The error of a division by zero.
    pub open spec fn undefined(self, a: int, b: int, position: usize) -> ErrorView {
        ErrorView::Domain { operation: Operation::Binary(self), operands: seq![a, b], position }
    }

    /// What the operator gives on the numbers `a` and `b`.
    pub open spec fn on_numbers(self, a: int, b: int, position: usize) -> Result<
        ValueView,
        ErrorView,
    > {
        match self {
            BinaryOp::Add => Ok(ValueView::Number(a + b)),
            BinaryOp::Subtract => Ok(ValueView::Number(a - b)),
            BinaryOp::Multiply => Ok(ValueView::Number(a * b)),
            BinaryOp::Divide => if b == 0 {
                Err(self.undefined(a, b, position))
            } else {
                Ok(ValueView::Number(quotient(a, b)))
            },
            BinaryOp::Remainder => if b == 0 {
                Err(self.undefined(a, b, position))
            } else {
                Ok(ValueView::Number(remainder(a, b)))
            },
            BinaryOp::Equal => Ok(ValueView::Boolean(a == b)),
            BinaryOp::NotEqual => Ok(ValueView::Boolean(a != b)),
            BinaryOp::Less => Ok(ValueView::Boolean(a < b)),
            BinaryOp::LessEqual => Ok(ValueView::Boolean(a <= b)),
            BinaryOp::Greater => Ok(ValueView::Boolean(a > b)),
            BinaryOp::GreaterEqual => Ok(ValueView::Boolean(a >= b)),
            BinaryOp::And | BinaryOp::Or => Err(
                self.mismatch(Kind::Number, Kind::Number, position),
            ),
        }
    }

    /// What the operator gives on `left` and `right`.
    pub open spec fn result(self, left: ValueView, right: ValueView, position: usize) -> Result<
        ValueView,
        ErrorView,
    > {
        if !self.accepts(left.kind(), right.kind()) {
            Err(self.mismatch(left.kind(), right.kind(), position))
        } else {
            match (left, right) {
                (ValueView::Number(a), ValueView::Number(b)) => self.on_numbers(a, b, position),
                (ValueView::Text(a), ValueView::Text(b)) if self == BinaryOp::Add => Ok(
                    ValueView::Text(a + b),
                ),
                (ValueView::Boolean(a), ValueView::Boolean(b)) if self == BinaryOp::And => Ok(
                    ValueView::Boolean(a && b),
                ),
                (ValueView::Boolean(a), ValueView::Boolean(b)) if self == BinaryOp::Or => Ok(
                    ValueView::Boolean(a || b),
                ),
                _ => Ok(ValueView::Boolean((left == right) == (self == BinaryOp::Equal))),
            }
        }
    }

    fn divide(self, a: &Integer, b: &Integer, position: usize) -> (r: Result<
        (Integer, Integer),
        EvalError,
    >)
        ensures
            match r {
                Ok(pair) => b@ != 0 && pair.0@ == quotient(a@, b@) && pair.1@ == remainder(
                    a@,
                    b@,
                ),
                Err(error) => b@ == 0 && error@ == self.undefined(a@, b@, position),
            },
    {
        match a.divided_by(b) {
            Some(pair) => Ok(pair),
            None => {
                let operands = vec![a.duplicate(), b.duplicate()];
                assert(integers(operands@) =~= seq![a@, b@]);
                Err(EvalError::Domain { operation: Operation::Binary(self), operands, position })
            },
        }
    }

    fn numbers(self, a: &Integer, b: &Integer, position: usize) -> (r: Result<Value, EvalError>)
        requires
            self.accepts(Kind::Number, Kind::Number),
        ensures
            outcome_view(r) == self.on_numbers(a@, b@, position),
    {
        let order = a.compare(b);
        match self {
            BinaryOp::Add => Ok(Value::Number(a.plus(b))),
            BinaryOp::Subtract => Ok(Value::Number(a.minus(b))),
            BinaryOp::Multiply => Ok(Value::Number(a.times(b))),
            BinaryOp::Divide => match self.divide(a, b, position) {
                Ok(pair) => Ok(Value::Number(pair.0)),
                Err(error) => Err(error),
            },
            BinaryOp::Remainder => match self.divide(a, b, position) {
                Ok(pair) => Ok(Value::Number(pair.1)),
                Err(error) => Err(error),
            },
            BinaryOp::Equal => Ok(Value::Boolean(order == Order::Equal)),
            BinaryOp::NotEqual => Ok(Value::Boolean(order != Order::Equal)),
            BinaryOp::Less => Ok(Value::Boolean(order == Order::Less)),
            BinaryOp::LessEqual => Ok(Value::Boolean(order != Order::Greater)),
            BinaryOp::Greater => Ok(Value::Boolean(order == Order::Greater)),
            _ => Ok(Value::Boolean(order != Order::Less)),
        }
    }

    /// Applies the operator to `left` and `right`; `position` is where the
    /// operator stands in the source.
    pub fn apply(self, left: &Value, right: &Value, position: usize) -> (r: Result<
        Value,
        EvalError,
    >)
        ensures
            outcome_view(r) == self.result(left@, right@, position),
            !self.accepts(left@.kind(), right@.kind()) ==> r matches Err(
                EvalError::TypeMismatch { .. },
            ),
    {
        match (left, right) {
            (Value::Number(a), Value::Number(b)) => match self {
                BinaryOp::And | BinaryOp::Or => {},
                _ => {
                    return self.numbers(a, b, position);
                },
            },
            (Value::Text(a), Value::Text(b)) => match self {
                BinaryOp::Add => {
                    let mut joined = a.clone();
                    joined.append(b.as_str());
                    return Ok(Value::Text(joined));
                },
                _ => {},
            },
            (Value::Boolean(a), Value::Boolean(b)) => match self {
                BinaryOp::And => {
                    return Ok(Value::Boolean(*a && *b));
                },
                BinaryOp::Or => {
                    return Ok(Value::Boolean(*a || *b));
                },
                _ => {},
            },
            _ => {},
        }
        let same_kind = left.kind() == right.kind();
        match self {
            BinaryOp::Equal if same_kind => Ok(Value::Boolean(left.same(right))),
            BinaryOp::NotEqual if same_kind => Ok(Value::Boolean(!left.same(right))),
            _ => {
                let operands = vec![left.kind(), right.kind()];
                assert(operands@ =~= seq![left@.kind(), right@.kind()]);
                Err(
                    EvalError::TypeMismatch {
                        operator: Operation::Binary(self),
                        operands,
                        position,
                    },
                )
            },
        }
    }
}

/// The variants of `values`, in order.
pub open spec fn kinds_of(values: Seq<ValueView>) -> Seq<Kind> {
    Seq::new(values.len(), |i: int| values[i].kind())
}

impl Builtin {
    /// Whether the function is defined on arguments of the variants
    /// `arguments`.
    pub open spec fn accepts(self, arguments: Seq<Kind>) -> bool {
        match self {
            Builtin::Len => arguments.len() == 1 && (arguments[0] == Kind::Text || arguments[0]
                == Kind::List),
            Builtin::Abs => arguments.len() == 1 && arguments[0] == Kind::Number,
            Builtin::Min | Builtin::Max => arguments.len() == 2 && arguments[0] == Kind::Number
                && arguments[1] == Kind::Number,
            Builtin::At => arguments.len() == 2 && arguments[0] == Kind::List && arguments[1]
                == Kind::Number,
        }
    }

    /// The error of a function that does not accept its arguments.
    pub open spec fn mismatch(self, arguments: Seq<ValueView>, position: usize) -> ErrorView {
        ErrorView::TypeMismatch {
            operator: Operation::Call(self),
            operands: kinds_of(arguments),
            position,
        }
    }

    /// What the function gives on `arguments`.
    pub open spec fn result(self, arguments: Seq<ValueView>, position: usize) -> Result<
        ValueView,
        ErrorView,
    > {
        if arguments.len() != self.arity_spec() {
            Err(
                ErrorView::ArityMismatch {
                    function: self,
                    expected: self.arity_spec(),
                    actual: arguments.len() as usize,
                    position,
                },
            )
        } else if !self.accepts(kinds_of(arguments)) {
            Err(self.mismatch(arguments, position))
        } else {
            match self {
                Builtin::Len => match arguments[0] {
                    ValueView::Text(text) => Ok(ValueView::Number(text.len() as int)),
                    ValueView::List(items) => Ok(ValueView::Number(items.len() as int)),
                    _ => Err(self.mismatch(arguments, position)),
                },
                Builtin::Abs => match arguments[0] {
                    ValueView::Number(n) => Ok(
                        ValueView::Number(
                            if n < 0 {
                                -n
                            } else {
                                n
                            },
                        ),
                    ),
                    _ => Err(self.mismatch(arguments, position)),
                },
                Builtin::Min => match (arguments[0], arguments[1]) {
                    (ValueView::Number(a), ValueView::Number(b)) => Ok(
                        ValueView::Number(
                            if a <= b {
                                a
                            } else {
                                b
                            },
                        ),
                    ),
                    _ => Err(self.mismatch(arguments, position)),
                },
                Builtin::Max => match (arguments[0], arguments[1]) {
                    (ValueView::Number(a), ValueView::Number(b)) => Ok(
                        ValueView::Number(
                            if a >= b {
                                a
                            } else {
                                b
                            },
                        ),
                    ),
                    _ => Err(self.mismatch(arguments, position)),
                },
                Builtin::At => match (arguments[0], arguments[1]) {
                    (ValueView::List(items), ValueView::Number(index)) => if 0 <= index
                        < items.len() {
                        Ok(items[index])
                    } else {
                        Err(
                            ErrorView::Domain {
                                operation: Operation::Call(self),
                                operands: seq![index],
                                position,
                            },
                        )
                    },
                    _ => Err(self.mismatch(arguments, position)),
                },
            }
        }
    }

    fn refuse(self, arguments: &Vec<Value>, position: usize) -> (error: EvalError)
        ensures
            error@ == self.mismatch(views(arguments@), position),
    {
        let mut operands: Vec<Kind> = Vec::new();
        let mut i: usize = 0;
        proof {
            lemma_views(arguments@);
        }
        while i < arguments.len()
            invariant
                i <= arguments.len(),
                operands.len() == i,
                views(arguments@).len() == arguments.len(),
                forall|j: int| 0 <= j < arguments.len() ==> (#[trigger] views(arguments@)[j])
                    == arguments@[j]@,
                forall|j: int| 0 <= j < i ==> operands@[j] == arguments@[j]@.kind(),
            decreases arguments.len() - i,
        {
            operands.push(arguments[i].kind());
            i += 1;
        }
        assert(operands@ =~= kinds_of(views(arguments@)));
        EvalError::TypeMismatch { operator: Operation::Call(self), operands, position }
    }

    /// Calls the function on `arguments`; `position` is where the call
    /// stands in the source.
    pub fn apply(self, arguments: &Vec<Value>, position: usize) -> (r: Result<Value, EvalError>)
        ensures
            outcome_view(r) == self.result(views(arguments@), position),
    {
        proof {
            lemma_views(arguments@);
        }
        let ghost given = views(arguments@);
        if arguments.len() != self.arity() {
            return Err(
                EvalError::ArityMismatch {
                    function: self,
                    expected: self.arity(),
                    actual: arguments.len(),
                    position,
                },
            );
        }
        assert(kinds_of(given)[0] == given[0].kind());
        assert(given.len() == 2 ==> kinds_of(given)[1] == given[1].kind());
        match self {
            Builtin::Len => match &arguments[0] {
                Value::Text(text) => Ok(
                    Value::Number(Integer::from_usize(text.as_str().unicode_len())),
                ),
                Value::List(items) => {
                    proof {
                        lemma_views(items@);
                    }
                    Ok(Value::Number(Integer::from_usize(items.len())))
                },
                _ => Err(self.refuse(arguments, position)),
            },
            Builtin::Abs => match &arguments[0] {
                Value::Number(n) => if n.is_negative() {
                    Ok(Value::Number(n.negate()))
                } else {
                    Ok(Value::Number(n.duplicate()))
                },
                _ => Err(self.refuse(arguments, position)),
            },
            Builtin::Min => match (&arguments[0], &arguments[1]) {
                (Value::Number(a), Value::Number(b)) => match a.compare(b) {
                    Order::Greater => Ok(Value::Number(b.duplicate())),
                    _ => Ok(Value::Number(a.duplicate())),
                },
                _ => Err(self.refuse(arguments, position)),
            },
            Builtin::Max => match (&arguments[0], &arguments[1]) {
                (Value::Number(a), Value::Number(b)) => match a.compare(b) {
                    Order::Less => Ok(Value::Number(b.duplicate())),
                    _ => Ok(Value::Number(a.duplicate())),
                },
                _ => Err(self.refuse(arguments, position)),
            },
            Builtin::At => match (&arguments[0], &arguments[1]) {
                (Value::List(items), Value::Number(index)) => {
                    proof {
                        lemma_views(items@);
                    }
                    let converted = index.to_usize();
                    let found: Option<usize> = match converted {
                        Some(i) => if i < items.len() {
                            Some(i)
                        } else {
                            None
                        },
                        None => None,
                    };
                    match found {
                        Some(i) => Ok(items[i].duplicate()),
                        None => {
                            assert(items.len() == items@.len());
                            assert(index@ < 0 || index@ >= items@.len());
                            let operands = vec![index.duplicate()];
                            assert(integers(operands@) =~= seq![index@]);
                            Err(
                                EvalError::Domain {
                                    operation: Operation::Call(self),
                                    operands,
                                    position,
                                },
                            )
                        },
                    }
                },
                _ => Err(self.refuse(arguments, position)),
            },
        }
    }
}

} // verus!
