//! The evaluator: walks a program against an environment of variables.

use crate::arithmetic::{
    binary_result, lemma_binary_result_well_formed, lemma_unary_result_well_formed, difference_of, is_zero_value, negation_of, product_of, quotient_of,
    round_ratio, sum_of, unary_result, wrap_to_i64,
};
use crate::ast::{Expression, ExpressionView, Operator, Program, Statement, StatementView};
use crate::binary64::{add_bits, bits_are_zero, div_bits, int_to_bits, mul_bits, negate_bits, sub_bits};
use crate::value::{
    lemma_numeral_well_formed, numeral_value, parse_number, SexagesimalNum, Value,
};
use vstd::prelude::*;

verus! {

/// Why a program could not be evaluated.
#[derive(Debug, Clone, PartialEq)]
pub enum RuntimeError {
    /// A reference to a variable that has no value; holds its name.
    UndefinedVariable(String),
    /// A numeral that could not be read; holds what was wrong with it.
    TypeError(String),
    /// A division by a value that is zero.
    DivisionByZero,
    /// An operator that does not apply to its operands.
    InvalidOperator(String),
}

/// The mathematical value of a [`RuntimeError`].
pub enum RuntimeErrorView {
    UndefinedVariable(Seq<char>),
    TypeError(Seq<char>),
    DivisionByZero,
    InvalidOperator(Seq<char>),
}

impl View for RuntimeError {
    type V = RuntimeErrorView;

    open spec fn view(&self) -> RuntimeErrorView {
        match self {
            RuntimeError::UndefinedVariable(name) => RuntimeErrorView::UndefinedVariable(name@),
            RuntimeError::TypeError(detail) => RuntimeErrorView::TypeError(detail@),
            RuntimeError::DivisionByZero => RuntimeErrorView::DivisionByZero,
            RuntimeError::InvalidOperator(detail) => RuntimeErrorView::InvalidOperator(detail@),
        }
    }
}

impl RuntimeErrorView {
    /// The error as a sentence.
    pub open spec fn message(self) -> Seq<char> {
        match self {
            RuntimeErrorView::UndefinedVariable(name) => "Undefined variable: '"@ + name + "'"@,
            RuntimeErrorView::TypeError(detail) => "Type error: "@ + detail,
            RuntimeErrorView::DivisionByZero => "Division by zero"@,
            RuntimeErrorView::InvalidOperator(detail) => "Invalid operator for types: "@ + detail,
        }
    }
}

impl RuntimeError {
    /// The error as a sentence.
    pub fn to_string(&self) -> (s: String)
        ensures
            s@ == self@.message(),
    {
        match self {
            RuntimeError::UndefinedVariable(name) => {
                let mut s = String::from_str("Undefined variable: '");
                s.append(name.as_str());
                s.append("'");
                s
            },
            RuntimeError::TypeError(detail) => {
                let mut s = String::from_str("Type error: ");
                s.append(detail.as_str());
                s
            },
            RuntimeError::DivisionByZero => String::from_str("Division by zero"),
            RuntimeError::InvalidOperator(detail) => {
                let mut s = String::from_str("Invalid operator for types: ");
                s.append(detail.as_str());
                s
            },
        }
    }
}

/// What evaluation gives, with the error taken by its view.
pub open spec fn value_result_view(r: Result<Value, RuntimeError>) -> Result<
    Value,
    RuntimeErrorView,
> {
    match r {
        Ok(value) => Ok(value),
        Err(e) => Err(e@),
    }
}

/// One variable with its value.
#[derive(Debug, Clone)]
struct Binding {
    name: String,
    value: Value,
}

/// The variables of a session: each name has at most one value.
#[derive(Debug, Clone)]
pub struct Environment {
    variables: Vec<Binding>,
}

/// The map that the bindings from `from` on stand for: of two bindings of
/// one name the earlier counts.
spec fn bindings_from(bindings: Seq<Binding>, from: int) -> Map<Seq<char>, Value>
    decreases bindings.len() - from,
{
    if 0 <= from < bindings.len() {
        bindings_from(bindings, from + 1).insert(bindings[from].name@, bindings[from].value)
    } else {
        Map::empty()
    }
}

/// Bindings that agree from `from` on stand for the same map.
proof fn lemma_bindings_same_tail(a: Seq<Binding>, b: Seq<Binding>, from: int)
    requires
        a.len() == b.len(),
        0 <= from,
        forall|j: int| from <= j < a.len() ==> a[j] == b[j],
    ensures
        bindings_from(a, from) == bindings_from(b, from),
    decreases a.len() - from,
{
    if from < a.len() {
        lemma_bindings_same_tail(a, b, from + 1);
    }
}

/// Giving the first binding of a name a new value changes the map at that
/// name alone.
proof fn lemma_bindings_replace(a: Seq<Binding>, at: int, fresh: Binding, from: int)
    requires
        0 <= from <= at < a.len(),
        fresh.name@ == a[at].name@,
        forall|j: int| from <= j < at ==> a[j].name@ != fresh.name@,
    ensures
        bindings_from(a.update(at, fresh), from) == bindings_from(a, from).insert(
            fresh.name@,
            fresh.value,
        ),
    decreases at - from,
{
    let b = a.update(at, fresh);
    if from == at {
        lemma_bindings_same_tail(a, b, at + 1);
        assert(bindings_from(b, from) =~= bindings_from(a, from).insert(fresh.name@, fresh.value));
    } else {
        lemma_bindings_replace(a, at, fresh, from + 1);
        assert(b[from] == a[from]);
        assert(bindings_from(b, from) =~= bindings_from(a, from).insert(fresh.name@, fresh.value));
    }
}

/// A binding of a new name, added at the end, adds the name to the map.
proof fn lemma_bindings_append(a: Seq<Binding>, fresh: Binding, from: int)
    requires
        0 <= from <= a.len(),
        forall|j: int| from <= j < a.len() ==> a[j].name@ != fresh.name@,
    ensures
        bindings_from(a.push(fresh), from) == bindings_from(a, from).insert(
            fresh.name@,
            fresh.value,
        ),
    decreases a.len() - from,
{
    let b = a.push(fresh);
    if from == a.len() {
        assert(bindings_from(b, from + 1) =~= Map::<Seq<char>, Value>::empty());
        assert(bindings_from(b, from) =~= bindings_from(a, from).insert(fresh.name@, fresh.value));
    } else {
        lemma_bindings_append(a, fresh, from + 1);
        assert(b[from] == a[from]);
        assert(bindings_from(b, from) =~= bindings_from(a, from).insert(fresh.name@, fresh.value));
    }
}

impl View for Environment {
    type V = Map<Seq<char>, Value>;

    closed spec fn view(&self) -> Map<Seq<char>, Value> {
        bindings_from(self.variables@, 0)
    }
}

impl Environment {
    /// An environment without variables.
    pub fn new() -> (env: Environment)
        ensures
            env@ == Map::<Seq<char>, Value>::empty(),
    {
        Environment { variables: Vec::new() }
    }

    /// Where the first binding of `name` stands; the number of bindings where
    /// there is none.
    fn find(&self, name: &String) -> (at: usize)
        ensures
            at <= self.variables.len(),
            forall|j: int| 0 <= j < at ==> self.variables@[j].name@ != name@,
            at < self.variables.len() ==> self.variables@[at as int].name@ == name@,
            self@.contains_key(name@) == (at < self.variables.len()),
            at < self.variables.len() ==> self@[name@] == self.variables@[at as int].value,
    {
        let mut i: usize = 0;
        while i < self.variables.len() && !(self.variables[i].name == *name)
            invariant
                i <= self.variables.len(),
                forall|j: int| 0 <= j < i ==> self.variables@[j].name@ != name@,
                self@.contains_key(name@) == bindings_from(self.variables@, i as int).contains_key(
                    name@,
                ),
                self@.contains_key(name@) ==> self@[name@] == bindings_from(
                    self.variables@,
                    i as int,
                )[name@],
            decreases self.variables.len() - i,
        {
            i = i + 1;
        }
        i
    }

    /// Binds `name` to `value`, in place of any value it had.
    pub fn set(&mut self, name: String, value: Value)
        ensures
            final(self)@ == old(self)@.insert(name@, value),
    {
        let at = self.find(&name);
        let fresh = Binding { name, value };
        proof {
            if at < self.variables.len() {
                lemma_bindings_replace(self.variables@, at as int, fresh, 0);
            } else {
                lemma_bindings_append(self.variables@, fresh, 0);
            }
        }
        if at < self.variables.len() {
            self.variables.set(at, fresh);
        } else {
            self.variables.push(fresh);
        }
    }

    /// The value of `name`, if it has one.
    pub fn get(&self, name: &str) -> (value: Option<Value>)
        ensures
            value == if self@.contains_key(name@) {
                Some(self@[name@])
            } else {
                None
            },
    {
        let key = String::from_str(name);
        let at = self.find(&key);
        if at < self.variables.len() {
            Some(self.variables[at].value)
        } else {
            None
        }
    }
}

/// The symbol of an operator.
pub open spec fn operator_symbol(op: Operator) -> Seq<char> {
    match op {
        Operator::Plus => "+"@,
        Operator::Minus => "-"@,
        Operator::Multiply => "*"@,
        Operator::Divide => "/"@,
    }
}

/// What is said of an operator that cannot stand before a single operand.
pub open spec fn not_unary(op: Operator) -> Seq<char> {
    "Cannot apply "@ + operator_symbol(op) + " to a single operand"@
}

/// What an operator between two values gives.
pub open spec fn apply_binary(op: Operator, left: Value, right: Value) -> Result<
    Value,
    RuntimeErrorView,
> {
    match binary_result(op, left, right) {
        Some(value) => Ok(value),
        None => Err(RuntimeErrorView::DivisionByZero),
    }
}

/// What an operator before a value gives.
pub open spec fn apply_unary(op: Operator, operand: Value) -> Result<Value, RuntimeErrorView> {
    match unary_result(op, operand) {
        Some(value) => Ok(value),
        None => Err(RuntimeErrorView::InvalidOperator(not_unary(op))),
    }
}

/// The value of an expression in an environment, or the first error met when
/// its operands are evaluated from left to right.
pub open spec fn expression_value(e: ExpressionView, env: Map<Seq<char>, Value>) -> Result<
    Value,
    RuntimeErrorView,
>
    decreases e,
{
    match e {
        ExpressionView::Number(text) => match numeral_value(text) {
            Ok(value) => Ok(value),
            Err(error) => Err(RuntimeErrorView::TypeError(error.message())),
        },
        ExpressionView::Identifier(name) => if env.contains_key(name) {
            Ok(env[name])
        } else {
            Err(RuntimeErrorView::UndefinedVariable(name))
        },
        ExpressionView::Binary(op, left, right) => match expression_value(*left, env) {
            Err(error) => Err(error),
            Ok(left_value) => match expression_value(*right, env) {
                Err(error) => Err(error),
                Ok(right_value) => apply_binary(op, left_value, right_value),
            },
        },
        ExpressionView::Unary(op, operand) => match expression_value(*operand, env) {
            Err(error) => Err(error),
            Ok(value) => apply_unary(op, value),
        },
        ExpressionView::Grouped(inner) => expression_value(*inner, env),
    }
}

/// The environment after a statement: an assignment whose expression has a
/// value binds the name to it; nothing else changes the environment.
pub open spec fn environment_after(s: StatementView, env: Map<Seq<char>, Value>) -> Map<
    Seq<char>,
    Value,
> {
    match s {
        StatementView::Expression(_) => env,
        StatementView::Assignment(name, e) => match expression_value(e, env) {
            Ok(value) => env.insert(name, value),
            Err(_) => env,
        },
    }
}

/// The value of a statement: that of its expression.
pub open spec fn statement_value(s: StatementView, env: Map<Seq<char>, Value>) -> Result<
    Value,
    RuntimeErrorView,
> {
    match s {
        StatementView::Expression(e) => expression_value(e, env),
        StatementView::Assignment(_, e) => expression_value(e, env),
    }
}

/// The result of the statements from `from` on, after statements whose last
/// value was `last`: the value of the last statement, or the first error.
pub open spec fn program_value(
    statements: Seq<StatementView>,
    from: int,
    env: Map<Seq<char>, Value>,
    last: Option<Value>,
) -> Result<Option<Value>, RuntimeErrorView>
    decreases statements.len() - from,
{
    if 0 <= from < statements.len() {
        match statement_value(statements[from], env) {
            Ok(value) => program_value(
                statements,
                from + 1,
                environment_after(statements[from], env),
                Some(value),
            ),
            Err(error) => Err(error),
        }
    } else {
        Ok(last)
    }
}

/// The environment after the statements from `from` on: each statement
/// works on what the one before it left, and the first error ends the run.
pub open spec fn environment_after_program(
    statements: Seq<StatementView>,
    from: int,
    env: Map<Seq<char>, Value>,
) -> Map<Seq<char>, Value>
    decreases statements.len() - from,
{
    if 0 <= from < statements.len() {
        match statement_value(statements[from], env) {
            Ok(_) => environment_after_program(
                statements,
                from + 1,
                environment_after(statements[from], env),
            ),
            Err(_) => env,
        }
    } else {
        env
    }
}

/// The evaluator. It holds no state of its own: the variables live in the
/// [`Environment`] that each call is given.
pub struct Interpreter;

impl Interpreter {
    /// An evaluator.
    pub fn new() -> Interpreter {
        Interpreter
    }

    /// Evaluates the statements in order and returns the value of the last
    /// one, `None` for a program without statements. Stops at the first
    /// error; what earlier statements have assigned stays assigned.
    pub fn eval_program(&self, program: &Program, environment: &mut Environment) -> (r: Result<
        Option<Value>,
        RuntimeError,
    >)
        ensures
            match r {
                Ok(value) => program_value(program@, 0, old(environment)@, None) == Ok::<
                    Option<Value>,
                    RuntimeErrorView,
                >(value),
                Err(e) => program_value(program@, 0, old(environment)@, None) == Err::<
                    Option<Value>,
                    RuntimeErrorView,
                >(e@),
            },
            final(environment)@ == environment_after_program(program@, 0, old(environment)@),
    {
        let mut result: Option<Value> = None;
        let mut i: usize = 0;
        while i < program.statements.len()
            invariant
                i <= program.statements.len(),
                program_value(program@, 0, old(environment)@, None) == program_value(
                    program@,
                    i as int,
                    environment@,
                    result,
                ),
                environment_after_program(program@, 0, old(environment)@)
                    == environment_after_program(program@, i as int, environment@),
            decreases program.statements.len() - i,
        {
            assert(program@[i as int] == program.statements@[i as int]@);
            match self.eval_statement(&program.statements[i], environment) {
                Ok(value) => {
                    result = Some(value);
                },
                Err(e) => {
                    return Err(e);
                },
            }
            i = i + 1;
        }
        Ok(result)
    }

    /// Evaluates one statement. An assignment binds its name to the value
    /// of its expression, and has that value.
    pub fn eval_statement(&self, statement: &Statement, environment: &mut Environment) -> (r:
        Result<Value, RuntimeError>)
        ensures
            value_result_view(r) == statement_value(statement@, old(environment)@),
            final(environment)@ == environment_after(statement@, old(environment)@),
    {
        match statement {
            Statement::Expression(expr) => self.eval_expression(expr, environment),
            Statement::Assignment(assign) => {
                let value = match self.eval_expression(&assign.value, environment) {
                    Ok(value) => value,
                    Err(e) => {
                        return Err(e);
                    },
                };
                environment.set(assign.variable.clone(), value);
                Ok(value)
            },
        }
    }

    /// Evaluates an expression. The environment is read, not changed.
    pub fn eval_expression(&self, expr: &Expression, environment: &mut Environment) -> (r: Result<
        Value,
        RuntimeError,
    >)
        ensures
            value_result_view(r) == expression_value(expr@, old(environment)@),
            final(environment)@ == old(environment)@,
        decreases expr,
    {
        match expr {
            Expression::Number(text) => match parse_number(text.as_str()) {
                Ok(value) => Ok(value),
                Err(e) => Err(RuntimeError::TypeError(e.to_string())),
            },
            Expression::Identifier(name) => match environment.get(name.as_str()) {
                Some(value) => Ok(value),
                None => Err(RuntimeError::UndefinedVariable(name.clone())),
            },
            Expression::Binary(op, left, right) => {
                let left_value = match self.eval_expression(left, environment) {
                    Ok(value) => value,
                    Err(e) => {
                        return Err(e);
                    },
                };
                let right_value = match self.eval_expression(right, environment) {
                    Ok(value) => value,
                    Err(e) => {
                        return Err(e);
                    },
                };
                self.eval_binary_operation(op, &left_value, &right_value)
            },
            Expression::Unary(op, operand) => {
                let value = match self.eval_expression(operand, environment) {
                    Ok(value) => value,
                    Err(e) => {
                        return Err(e);
                    },
                };
                self.eval_unary_operation(op, &value)
            },
            Expression::Grouped(inner) => self.eval_expression(inner, environment),
        }
    }

    /// Applies an operator to two values.
    pub fn eval_binary_operation(&self, op: &Operator, left: &Value, right: &Value) -> (r: Result<
        Value,
        RuntimeError,
    >)
        ensures
            value_result_view(r) == apply_binary(*op, *left, *right),
    {
        match op {
            Operator::Plus => self.add_values(left, right),
            Operator::Minus => self.subtract_values(left, right),
            Operator::Multiply => self.multiply_values(left, right),
            Operator::Divide => self.divide_values(left, right),
        }
    }

    /// Applies an operator to one value: plus gives the value, minus its
    /// negation; the other operators do not apply.
    pub fn eval_unary_operation(&self, op: &Operator, value: &Value) -> (r: Result<
        Value,
        RuntimeError,
    >)
        ensures
            value_result_view(r) == apply_unary(*op, *value),
    {
        match op {
            Operator::Plus => Ok(*value),
            Operator::Minus => self.negate_value(value),
            Operator::Multiply => {
                let mut detail = String::from_str("Cannot apply ");
                detail.append("*");
                detail.append(" to a single operand");
                Err(RuntimeError::InvalidOperator(detail))
            },
            Operator::Divide => {
                let mut detail = String::from_str("Cannot apply ");
                detail.append("/");
                detail.append(" to a single operand");
                Err(RuntimeError::InvalidOperator(detail))
            },
        }
    }

    /// The sum of two values.
    pub fn add_values(&self, left: &Value, right: &Value) -> (r: Result<Value, RuntimeError>)
        ensures
            value_result_view(r) == Ok::<Value, RuntimeErrorView>(sum_of(*left, *right)),
    {
        match (left, right) {
            (Value::Integer(a), Value::Integer(b)) => Ok(
                Value::Integer(wrap_to_i64(*a as i128 + *b as i128)),
            ),
            (Value::Sexagesimal(a), Value::Sexagesimal(b)) => Ok(
                Value::Sexagesimal(
                    SexagesimalNum::from_sixtieths(a.total_sixtieths() + b.total_sixtieths()),
                ),
            ),
            (Value::Sexagesimal(a), Value::Integer(b)) => Ok(
                Value::Sexagesimal(
                    SexagesimalNum::from_sixtieths(a.total_sixtieths() + *b as i128 * 60),
                ),
            ),
            (Value::Integer(a), Value::Sexagesimal(b)) => Ok(
                Value::Sexagesimal(
                    SexagesimalNum::from_sixtieths(*a as i128 * 60 + b.total_sixtieths()),
                ),
            ),
            _ => Ok(Value::Float(add_bits(left.to_f64(), right.to_f64()))),
        }
    }

    /// The difference of two values.
    pub fn subtract_values(&self, left: &Value, right: &Value) -> (r: Result<Value, RuntimeError>)
        ensures
            value_result_view(r) == Ok::<Value, RuntimeErrorView>(difference_of(*left, *right)),
    {
        match (left, right) {
            (Value::Integer(a), Value::Integer(b)) => Ok(
                Value::Integer(wrap_to_i64(*a as i128 - *b as i128)),
            ),
            (Value::Sexagesimal(a), Value::Sexagesimal(b)) => Ok(
                Value::Sexagesimal(
                    SexagesimalNum::from_sixtieths(a.total_sixtieths() - b.total_sixtieths()),
                ),
            ),
            (Value::Sexagesimal(a), Value::Integer(b)) => Ok(
                Value::Sexagesimal(
                    SexagesimalNum::from_sixtieths(a.total_sixtieths() - *b as i128 * 60),
                ),
            ),
            (Value::Integer(a), Value::Sexagesimal(b)) => Ok(
                Value::Sexagesimal(
                    SexagesimalNum::from_sixtieths(*a as i128 * 60 - b.total_sixtieths()),
                ),
            ),
            _ => Ok(Value::Float(sub_bits(left.to_f64(), right.to_f64()))),
        }
    }

    /// The product of two values.
    pub fn multiply_values(&self, left: &Value, right: &Value) -> (r: Result<Value, RuntimeError>)
        ensures
            value_result_view(r) == Ok::<Value, RuntimeErrorView>(product_of(*left, *right)),
    {
        match (left, right) {
            (Value::Integer(a), Value::Integer(b)) => {
                assert(-0x4000_0000_0000_0000_0000_0000_0000_0000 <= *a * *b
                    <= 0x4000_0000_0000_0000_0000_0000_0000_0000) by (nonlinear_arith)
                    requires
                        -0x8000_0000_0000_0000 <= *a < 0x8000_0000_0000_0000,
                        -0x8000_0000_0000_0000 <= *b < 0x8000_0000_0000_0000,
                ;
                let wide = *a as i128 * *b as i128;
                Ok(Value::Integer(wrap_to_i64(wide)))
            },
            (Value::Sexagesimal(a), Value::Integer(b)) => Ok(
                Value::Sexagesimal(scale_sixtieths(a.total_sixtieths(), *b)),
            ),
            (Value::Integer(a), Value::Sexagesimal(b)) => {
                assert(*a * b.sixtieths() == b.sixtieths() * *a) by (nonlinear_arith);
                Ok(Value::Sexagesimal(scale_sixtieths(b.total_sixtieths(), *a)))
            },
            _ => Ok(Value::Float(mul_bits(left.to_f64(), right.to_f64()))),
        }
    }

    /// The quotient of two values. Fails where the divisor is zero, whatever
    /// the dividend is.
    pub fn divide_values(&self, left: &Value, right: &Value) -> (r: Result<Value, RuntimeError>)
        ensures
            value_result_view(r) == apply_binary(Operator::Divide, *left, *right),
            is_zero_value(*right) ==> r is Err && r->Err_0@ is DivisionByZero,
            !is_zero_value(*right) ==> r == Ok::<Value, RuntimeError>(
                quotient_of(*left, *right),
            ),
    {
        let zero = match right {
            Value::Integer(b) => *b == 0,
            Value::Float(bits) => bits_are_zero(*bits),
            Value::Sexagesimal(s) => s.total_sixtieths() == 0,
        };
        if zero {
            return Err(RuntimeError::DivisionByZero);
        }
        match (left, right) {
            (Value::Integer(a), Value::Integer(b)) => Ok(divide_integers(*a, *b)),
            (Value::Sexagesimal(a), Value::Integer(b)) => Ok(
                Value::Sexagesimal(
                    SexagesimalNum::from_sixtieths(round_ratio(a.total_sixtieths(), *b as i128)),
                ),
            ),
            (Value::Integer(a), Value::Sexagesimal(b)) => Ok(
                Value::Sexagesimal(
                    SexagesimalNum::from_sixtieths(
                        round_ratio(*a as i128 * 3600, b.total_sixtieths()),
                    ),
                ),
            ),
            _ => Ok(Value::Float(div_bits(left.to_f64(), right.to_f64()))),
        }
    }

    /// The value with the other sign.
    pub fn negate_value(&self, value: &Value) -> (r: Result<Value, RuntimeError>)
        ensures
            value_result_view(r) == Ok::<Value, RuntimeErrorView>(negation_of(*value)),
    {
        match value {
            Value::Integer(n) => Ok(Value::Integer(wrap_to_i64(-(*n as i128)))),
            Value::Float(bits) => Ok(Value::Float(negate_bits(*bits))),
            Value::Sexagesimal(s) => Ok(
                Value::Sexagesimal(SexagesimalNum::from_sixtieths(-s.total_sixtieths())),
            ),
        }
    }
}

/// The sexagesimal number that is `factor` times `sixtieths` sixtieths.
fn scale_sixtieths(sixtieths: i128, factor: i64) -> (r: SexagesimalNum)
    ensures
        r == SexagesimalNum::of_sixtieths(sixtieths * factor),
        r.wf(),
{
    match sixtieths.checked_mul(factor as i128) {
        Some(scaled) => SexagesimalNum::from_sixtieths(scaled),
        None => {
            if (sixtieths > 0) == (factor > 0) {
                assert(sixtieths * factor > 0) by (nonlinear_arith)
                    requires
                        (sixtieths > 0) == (factor > 0),
                        sixtieths * factor > i128::MAX || sixtieths * factor < i128::MIN,
                ;
                SexagesimalNum { integer_part: i64::MAX, fractional_part: 0, has_fraction: false }
            } else {
                assert(sixtieths * factor <= 0) by (nonlinear_arith)
                    requires
                        (sixtieths > 0) != (factor > 0),
                ;
                SexagesimalNum { integer_part: i64::MIN, fractional_part: 0, has_fraction: false }
            }
        },
    }
}

/// An integer that is a multiple of another is divided by it without rest.
proof fn lemma_exact_division(a: int, b: int, k: int)
    requires
        b != 0,
        a == b * k,
    ensures
        a % b == 0,
        a / b == k,
{
    assert(a % b == 0 && a / b == k) by (nonlinear_arith)
        requires
            b != 0,
            a == b * k,
    ;
}

/// An integer that is divided without rest is a multiple of the divisor.
proof fn lemma_exact_multiple(a: int, b: int)
    requires
        b != 0,
        a % b == 0,
    ensures
        a == b * (a / b),
{
    assert(a == b * (a / b)) by (nonlinear_arith)
        requires
            b != 0,
            a % b == 0,
    ;
}

/// The quotient of two integers, the second of which is not 0: an integer
/// where the division is exact, else a double.
fn divide_integers(a: i64, b: i64) -> (r: Value)
    requires
        b != 0,
    ensures
        r == quotient_of(Value::Integer(a), Value::Integer(b)),
{
    let dividend: i128 = if a < 0 {
        -(a as i128)
    } else {
        a as i128
    };
    let divisor: i128 = if b < 0 {
        -(b as i128)
    } else {
        b as i128
    };
    let rest = dividend % divisor;
    let ratio = dividend / divisor;
    if rest == 0 {
        let signed = if (a < 0) == (b < 0) {
            ratio
        } else {
            -ratio
        };
        proof {
            lemma_exact_multiple(dividend as int, divisor as int);
            assert(a == b * signed) by (nonlinear_arith)
                requires
                    dividend == divisor * ratio,
                    dividend == if a < 0 { -a } else { a as int },
                    divisor == if b < 0 { -b } else { b as int },
                    signed == if (a < 0) == (b < 0) { ratio as int } else { -ratio },
            ;
            lemma_exact_division(a as int, b as int, signed as int);
        }
        Value::Integer(wrap_to_i64(signed))
    } else {
        proof {
            if a as int % b as int == 0 {
                lemma_exact_multiple(a as int, b as int);
                let k = a as int / b as int;
                let m = if (a < 0) == (b < 0) { k } else { -k };
                assert(dividend == divisor * m) by (nonlinear_arith)
                    requires
                        a == b * k,
                        dividend == if a < 0 { -a } else { a as int },
                        divisor == if b < 0 { -b } else { b as int },
                        m == if (a < 0) == (b < 0) { k } else { -k },
                ;
                lemma_exact_division(dividend as int, divisor as int, m);
            }
        }
        Value::Float(div_bits(int_to_bits(a), int_to_bits(b)))
    }
}

/// Whether every variable of an environment holds a value that keeps its
/// invariant.
pub open spec fn environment_wf(env: Map<Seq<char>, Value>) -> bool {
    forall|name: Seq<char>| env.contains_key(name) ==> (#[trigger] env[name]).wf()
}

/// In an environment whose values keep their invariant, the value of every
/// expression keeps it.
pub proof fn lemma_expression_value_well_formed(e: ExpressionView, env: Map<Seq<char>, Value>)
    requires
        environment_wf(env),
    ensures
        expression_value(e, env) matches Ok(value) ==> value.wf(),
    decreases e,
{
    match e {
        ExpressionView::Number(text) => {
            lemma_numeral_well_formed(text);
        },
        ExpressionView::Identifier(name) => {},
        ExpressionView::Binary(op, left, right) => {
            lemma_expression_value_well_formed(*left, env);
            lemma_expression_value_well_formed(*right, env);
            if expression_value(*left, env) is Ok && expression_value(*right, env) is Ok {
                lemma_binary_result_well_formed(
                    op,
                    expression_value(*left, env)->Ok_0,
                    expression_value(*right, env)->Ok_0,
                );
            }
        },
        ExpressionView::Unary(op, operand) => {
            lemma_expression_value_well_formed(*operand, env);
            if expression_value(*operand, env) is Ok {
                lemma_unary_result_well_formed(op, expression_value(*operand, env)->Ok_0);
            }
        },
        ExpressionView::Grouped(inner) => {
            lemma_expression_value_well_formed(*inner, env);
        },
    }
}

/// Statements keep the invariant of the environment: where every variable
/// held a value that keeps its invariant before a statement, every variable
/// does after it.
pub proof fn lemma_environment_stays_well_formed(s: StatementView, env: Map<Seq<char>, Value>)
    requires
        environment_wf(env),
    ensures
        environment_wf(environment_after(s, env)),
{
    match s {
        StatementView::Expression(_) => {},
        StatementView::Assignment(name, e) => {
            lemma_expression_value_well_formed(e, env);
        },
    }
}

/// Assignments persist: after an assignment whose expression has a value,
/// a reference to the name has that value, in the statement's environment
/// and so for every statement that follows.
pub proof fn lemma_assignment_persists(
    name: Seq<char>,
    e: ExpressionView,
    env: Map<Seq<char>, Value>,
)
    requires
        expression_value(e, env) is Ok,
    ensures
        expression_value(
            ExpressionView::Identifier(name),
            environment_after(StatementView::Assignment(name, e), env),
        ) == expression_value(e, env),
{
}

/// A reference to a name that was never assigned is an error that holds the name.
pub proof fn lemma_unassigned_is_undefined(name: Seq<char>, env: Map<Seq<char>, Value>)
    requires
        !env.contains_key(name),
    ensures
        expression_value(ExpressionView::Identifier(name), env) == Err::<
            Value,
            RuntimeErrorView,
        >(RuntimeErrorView::UndefinedVariable(name)),
{
}

/// An expression statement leaves the environment as it was, and so does
/// every statement that fails.
pub proof fn lemma_only_assignment_binds(s: StatementView, env: Map<Seq<char>, Value>)
    ensures
        s is Expression || statement_value(s, env) is Err ==> environment_after(s, env) == env,
{
}

} // verus!
