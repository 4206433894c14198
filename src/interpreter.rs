use vstd::prelude::*;
use crate::ast::{
    Ast, AstModel, Literal, LiteralModel, Operation, Operator, copy_names, names_model, same_names,
};

verus! {

/// A floating-point operation that the evaluator hands to the caller. Floats
/// travel as their IEEE 754 binary64 bit patterns.
pub enum FloatOp {
    /// The value of a float numeral.
    Parse(String),
    /// The float nearest to an integer.
    FromInt(i64),
    Negate(u64),
    Add(u64, u64),
    Subtract(u64, u64),
    Multiply(u64, u64),
    Divide(u64, u64),
    /// The order of two floats: 0 less, 1 equal, 2 greater, anything else unordered.
    Compare(u64, u64),
}

pub enum FloatOpModel {
    Parse(Seq<char>),
    FromInt(i64),
    Negate(u64),
    Add(u64, u64),
    Subtract(u64, u64),
    Multiply(u64, u64),
    Divide(u64, u64),
    Compare(u64, u64),
}

impl FloatOp {
    pub open spec fn model(self) -> FloatOpModel {
        match self {
            FloatOp::Parse(s) => FloatOpModel::Parse(s@),
            FloatOp::FromInt(n) => FloatOpModel::FromInt(n),
            FloatOp::Negate(x) => FloatOpModel::Negate(x),
            FloatOp::Add(x, y) => FloatOpModel::Add(x, y),
            FloatOp::Subtract(x, y) => FloatOpModel::Subtract(x, y),
            FloatOp::Multiply(x, y) => FloatOpModel::Multiply(x, y),
            FloatOp::Divide(x, y) => FloatOpModel::Divide(x, y),
            FloatOp::Compare(x, y) => FloatOpModel::Compare(x, y),
        }
    }
}

/// A runtime value.
#[derive(Debug, PartialEq)]
pub enum Value {
    Nil,
    Bool(bool),
    Integer(i64),
    /// The bit pattern of a binary64 float.
    Float(u64),
    Str(String),
    /// Parameter names and body; no scope is captured.
    Function(Vec<String>, Box<Ast>),
}

pub enum ValueModel {
    Nil,
    Bool(bool),
    Integer(i64),
    Float(u64),
    Str(Seq<char>),
    Function(Seq<Seq<char>>, AstModel),
}

/// The operand of an ordering or arithmetic operator: an integer, or the bit
/// pattern of a float.
#[derive(Debug, Clone, Copy, PartialEq, Eq)]
pub enum NumberValue {
    Integer(i64),
    Float(u64),
}

/// The kinds of values, as type errors name them. `Number` stands for
/// integer or float.
#[derive(Debug, Clone, Copy, PartialEq, Eq)]
pub enum Kind {
    Nil,
    Bool,
    Integer,
    Float,
    Number,
    Str,
    Function,
}

/// An evaluation error.
#[derive(Debug, Clone, PartialEq)]
pub enum Error {
    TypeError { expected: Kind, found: Kind },
    ReferenceUndefinedError { name: String },
    ArityError { expected: usize, found: usize },
    /// An integer result does not fit in 64 bits.
    Overflow,
    DivisionByZero,
    /// An operator used where it has no meaning, such as `+` as a unary operator.
    InvalidOperator,
    /// Evaluation nested deeper than the interpreter allows.
    DepthExceeded,
}

pub enum ErrorModel {
    TypeError(Kind, Kind),
    ReferenceUndefined(Seq<char>),
    Arity(usize, usize),
    Overflow,
    DivisionByZero,
    InvalidOperator,
    DepthExceeded,
}

impl Value {
    pub open spec fn model(self) -> ValueModel {
        match self {
            Value::Nil => ValueModel::Nil,
            Value::Bool(b) => ValueModel::Bool(b),
            Value::Integer(n) => ValueModel::Integer(n),
            Value::Float(x) => ValueModel::Float(x),
            Value::Str(s) => ValueModel::Str(s@),
            Value::Function(params, body) => ValueModel::Function(
                names_model(params@),
                (*body).model(),
            ),
        }
    }

    pub fn copy(&self) -> (r: Value)
        ensures
            r.model() == self.model(),
    {
        match self {
            Value::Nil => Value::Nil,
            Value::Bool(b) => Value::Bool(*b),
            Value::Integer(n) => Value::Integer(*n),
            Value::Float(x) => Value::Float(*x),
            Value::Str(s) => Value::Str(s.clone()),
            Value::Function(params, body) => Value::Function(
                copy_names(params),
                Box::new(body.copy()),
            ),
        }
    }

    /// The value as a number, or a type error naming its kind.
    pub fn into_number(&self) -> (r: Result<NumberValue, Error>)
        ensures
            match self.model() {
                ValueModel::Integer(n) => r == Ok::<NumberValue, Error>(NumberValue::Integer(n)),
                ValueModel::Float(x) => r == Ok::<NumberValue, Error>(NumberValue::Float(x)),
                _ => r == Err::<NumberValue, Error>(
                    Error::TypeError { expected: Kind::Number, found: kind_of(self.model()) },
                ),
            },
    {
        match self {
            Value::Integer(n) => Ok(NumberValue::Integer(*n)),
            Value::Float(x) => Ok(NumberValue::Float(*x)),
            _ => Err(Error::TypeError { expected: Kind::Number, found: self.kind() }),
        }
    }

    /// `Some(())` exactly for nil.
    pub fn as_nil(&self) -> (r: Option<()>)
        ensures
            r is Some <==> self is Nil,
    {
        match self {
            Value::Nil => Some(()),
            _ => None,
        }
    }

    /// `Some(())` exactly for nil.
    pub fn into_nil(self) -> (r: Option<()>)
        ensures
            r is Some <==> self is Nil,
    {
        self.as_nil()
    }

    /// The kind of this value.
    pub fn kind(&self) -> (r: Kind)
        ensures
            r == kind_of(self.model()),
    {
        match self {
            Value::Nil => Kind::Nil,
            Value::Bool(_) => Kind::Bool,
            Value::Integer(_) => Kind::Integer,
            Value::Float(_) => Kind::Float,
            Value::Str(_) => Kind::Str,
            Value::Function(..) => Kind::Function,
        }
    }
}

impl Error {
    pub open spec fn model(self) -> ErrorModel {
        match self {
            Error::TypeError { expected, found } => ErrorModel::TypeError(expected, found),
            Error::ReferenceUndefinedError { name } => ErrorModel::ReferenceUndefined(name@),
            Error::ArityError { expected, found } => ErrorModel::Arity(expected, found),
            Error::Overflow => ErrorModel::Overflow,
            Error::DivisionByZero => ErrorModel::DivisionByZero,
            Error::InvalidOperator => ErrorModel::InvalidOperator,
            Error::DepthExceeded => ErrorModel::DepthExceeded,
        }
    }
}

pub open spec fn kind_of(v: ValueModel) -> Kind {
    match v {
        ValueModel::Nil => Kind::Nil,
        ValueModel::Bool(_) => Kind::Bool,
        ValueModel::Integer(_) => Kind::Integer,
        ValueModel::Float(_) => Kind::Float,
        ValueModel::Str(_) => Kind::Str,
        ValueModel::Function(..) => Kind::Function,
    }
}

/// What the caller's float operations return, as a function of the operation.
pub type FloatFn = spec_fn(FloatOpModel) -> u64;

pub open spec fn literal_value(fl: FloatFn, l: LiteralModel) -> ValueModel {
    match l {
        LiteralModel::Nil => ValueModel::Nil,
        LiteralModel::Bool(b) => ValueModel::Bool(b),
        LiteralModel::Integer(n) => ValueModel::Integer(n),
        LiteralModel::Float(s) => ValueModel::Float(fl(FloatOpModel::Parse(s))),
        LiteralModel::Str(s) => ValueModel::Str(s),
    }
}

/// Structural equality: values of different kinds are never equal, floats
/// compare as floats, functions by their parameters and body.
pub open spec fn values_equal(fl: FloatFn, a: ValueModel, b: ValueModel) -> bool {
    match (a, b) {
        (ValueModel::Nil, ValueModel::Nil) => true,
        (ValueModel::Bool(x), ValueModel::Bool(y)) => x == y,
        (ValueModel::Integer(x), ValueModel::Integer(y)) => x == y,
        (ValueModel::Float(x), ValueModel::Float(y)) => fl(FloatOpModel::Compare(x, y)) == 1,
        (ValueModel::Str(x), ValueModel::Str(y)) => x == y,
        (ValueModel::Function(p, b1), ValueModel::Function(q, b2)) => p == q && b1 == b2,
        _ => false,
    }
}

/// Integer division rounding toward zero.
pub open spec fn trunc_div(a: int, b: int) -> int {
    let q: int = (vstd::math::abs(a) / vstd::math::abs(b)) as int;
    if (a < 0) != (b < 0) {
        -q
    } else {
        q
    }
}

pub open spec fn in_i64(x: int) -> bool {
    i64::MIN <= x <= i64::MAX
}

pub open spec fn int_result(x: int) -> Result<ValueModel, ErrorModel> {
    if in_i64(x) {
        Ok(ValueModel::Integer(x as i64))
    } else {
        Err(ErrorModel::Overflow)
    }
}

pub open spec fn is_arithmetic(op: Operator) -> bool {
    op == Operator::Add || op == Operator::Subtract || op == Operator::Multiply || op
        == Operator::Divide
}

pub open spec fn is_ordering(op: Operator) -> bool {
    op == Operator::Greater || op == Operator::GreaterEqual || op == Operator::Less || op
        == Operator::LessEqual
}

pub open spec fn is_number(v: ValueModel) -> bool {
    v is Integer || v is Float
}

/// A number widened to a float.
pub open spec fn as_float(fl: FloatFn, v: ValueModel) -> u64 {
    match v {
        ValueModel::Integer(n) => fl(FloatOpModel::FromInt(n)),
        ValueModel::Float(x) => x,
        _ => 0,
    }
}

pub open spec fn int_arith(op: Operator, a: int, b: int) -> Result<ValueModel, ErrorModel> {
    match op {
        Operator::Add => int_result(a + b),
        Operator::Subtract => int_result(a - b),
        Operator::Multiply => int_result(a * b),
        _ => if b == 0 {
            Err(ErrorModel::DivisionByZero)
        } else {
            int_result(trunc_div(a, b))
        },
    }
}

pub open spec fn float_arith(fl: FloatFn, op: Operator, x: u64, y: u64) -> u64 {
    match op {
        Operator::Add => fl(FloatOpModel::Add(x, y)),
        Operator::Subtract => fl(FloatOpModel::Subtract(x, y)),
        Operator::Multiply => fl(FloatOpModel::Multiply(x, y)),
        _ => fl(FloatOpModel::Divide(x, y)),
    }
}

/// Whether an order result (-1, 0, 1 as less, equal, greater; anything else
/// unordered) satisfies an ordering operator.
pub open spec fn order_holds(op: Operator, c: int) -> bool {
    match op {
        Operator::Greater => c == 1,
        Operator::GreaterEqual => c == 1 || c == 0,
        Operator::Less => c == -1,
        _ => c == -1 || c == 0,
    }
}

pub open spec fn int_order(a: int, b: int) -> int {
    if a < b {
        -1
    } else if a == b {
        0
    } else {
        1
    }
}

pub open spec fn float_order(c: u64) -> int {
    if c == 0 {
        -1
    } else if c == 1 {
        0
    } else if c == 2 {
        1
    } else {
        2
    }
}

pub open spec fn unary_spec(fl: FloatFn, op: Operator, v: ValueModel) -> Result<ValueModel, ErrorModel> {
    match op {
        Operator::Not => match v {
            ValueModel::Bool(b) => Ok(ValueModel::Bool(!b)),
            _ => Err(ErrorModel::TypeError(Kind::Bool, kind_of(v))),
        },
        Operator::Negate => match v {
            ValueModel::Integer(n) => int_result(-n),
            ValueModel::Float(x) => Ok(ValueModel::Float(fl(FloatOpModel::Negate(x)))),
            _ => Err(ErrorModel::TypeError(Kind::Number, kind_of(v))),
        },
        _ => Err(ErrorModel::InvalidOperator),
    }
}

/// The binary operators: equality compares structurally; ordering and
/// arithmetic need two numbers, stay integral on two integers and widen both
/// to floats otherwise.
pub open spec fn binary_spec(fl: FloatFn, op: Operator, a: ValueModel, b: ValueModel) -> Result<ValueModel, ErrorModel> {
    if op == Operator::Equal {
        Ok(ValueModel::Bool(values_equal(fl, a, b)))
    } else if op == Operator::NotEqual {
        Ok(ValueModel::Bool(!values_equal(fl, a, b)))
    } else if !(is_arithmetic(op) || is_ordering(op)) {
        Err(ErrorModel::InvalidOperator)
    } else if !is_number(a) {
        Err(ErrorModel::TypeError(Kind::Number, kind_of(a)))
    } else if !is_number(b) {
        Err(ErrorModel::TypeError(Kind::Number, kind_of(b)))
    } else if a is Integer && b is Integer {
        if is_ordering(op) {
            Ok(ValueModel::Bool(order_holds(op, int_order(a->Integer_0 as int, b->Integer_0 as int))))
        } else {
            int_arith(op, a->Integer_0 as int, b->Integer_0 as int)
        }
    } else {
        let x = as_float(fl, a);
        let y = as_float(fl, b);
        if is_ordering(op) {
            Ok(ValueModel::Bool(order_holds(op, float_order(fl(FloatOpModel::Compare(x, y))))))
        } else {
            Ok(ValueModel::Float(float_arith(fl, op, x, y)))
        }
    }
}

/// One lexical frame: bindings in the order they were made.
pub type ScopeModel = Seq<(Seq<char>, ValueModel)>;

/// The stack of frames, innermost last.
pub type ScopesModel = Seq<ScopeModel>;

/// The latest binding of `name` in one frame.
pub open spec fn find_in(scope: ScopeModel, name: Seq<char>) -> Option<ValueModel>
    decreases scope.len(),
{
    if scope.len() == 0 {
        None
    } else if scope.last().0 == name {
        Some(scope.last().1)
    } else {
        find_in(scope.drop_last(), name)
    }
}

/// The binding of `name` in the innermost frame that has one.
pub open spec fn lookup(sc: ScopesModel, name: Seq<char>) -> Option<ValueModel>
    decreases sc.len(),
{
    if sc.len() == 0 {
        None
    } else {
        match find_in(sc.last(), name) {
            Some(v) => Some(v),
            None => lookup(sc.drop_last(), name),
        }
    }
}

/// Binds `name` to `v` in the innermost frame.
pub open spec fn declare(sc: ScopesModel, name: Seq<char>, v: ValueModel) -> ScopesModel {
    if sc.len() == 0 {
        sc
    } else {
        sc.update(sc.len() - 1, sc.last().push((name, v)))
    }
}

/// The frame of a call: each parameter bound to the argument at its position.
pub open spec fn bind(params: Seq<Seq<char>>, vals: Seq<ValueModel>) -> ScopeModel {
    Seq::new(params.len(), |k: int| (params[k], vals[k]))
}

pub type Outcome = (Result<ValueModel, ErrorModel>, ScopesModel);

/// Evaluates `a` in the scope stack `sc`, nesting at most `depth` deep: the
/// result and the scope stack afterwards.
pub open spec fn eval(fl: FloatFn, depth: nat, sc: ScopesModel, a: AstModel) -> Outcome
    decreases depth, 0int,
{
    if depth == 0 {
        (Err(ErrorModel::DepthExceeded), sc)
    } else {
        let d = (depth - 1) as nat;
        match a {
            AstModel::Literal(l) => (Ok(literal_value(fl, l)), sc),
            AstModel::Declaration(name, value) => {
                let (r, sc1) = eval(fl, d, sc, *value);
                match r {
                    Ok(v) => (Ok(ValueModel::Nil), declare(sc1, name, v)),
                    Err(e) => (Err(e), sc1),
                }
            },
            AstModel::Reference(name) => match lookup(sc, name) {
                Some(v) => (Ok(v), sc),
                None => (Err(ErrorModel::ReferenceUndefined(name)), sc),
            },
            AstModel::Grouping(children) => {
                let (r, sc1) = eval_seq(fl, d, sc.push(Seq::empty()), children, 0, ValueModel::Nil);
                (r, sc1.drop_last())
            },
            AstModel::Unary(op, operand) => {
                let (r, sc1) = eval(fl, d, sc, *operand);
                match r {
                    Ok(v) => (unary_spec(fl, op, v), sc1),
                    Err(e) => (Err(e), sc1),
                }
            },
            AstModel::Binary(op, left, right) => {
                let (r1, sc1) = eval(fl, d, sc, *left);
                match r1 {
                    Ok(x) => {
                        let (r2, sc2) = eval(fl, d, sc1, *right);
                        match r2 {
                            Ok(y) => (binary_spec(fl, op, x, y), sc2),
                            Err(e) => (Err(e), sc2),
                        }
                    },
                    Err(e) => (Err(e), sc1),
                }
            },
            AstModel::Function(params, body) => (Ok(ValueModel::Function(params, *body)), sc),
            AstModel::Application(callee, args) => {
                let (r1, sc1) = eval(fl, d, sc, *callee);
                match r1 {
                    Ok(ValueModel::Function(params, body)) => {
                        let (r2, sc2) = eval_args(fl, d, sc1, args, 0, Seq::empty());
                        match r2 {
                            Ok(vals) => if vals.len() != params.len() {
                                (Err(ErrorModel::Arity(params.len() as usize, vals.len() as usize)), sc2)
                            } else {
                                let (r3, sc3) = eval(fl, d, sc2.push(bind(params, vals)), body);
                                (r3, sc3.drop_last())
                            },
                            Err(e) => (Err(e), sc2),
                        }
                    },
                    Ok(v) => (Err(ErrorModel::TypeError(Kind::Function, kind_of(v))), sc1),
                    Err(e) => (Err(e), sc1),
                }
            },
        }
    }
}

/// Evaluates `cs[i..]` in order, stopping at the first error; the value is
/// that of the last one, or `last` if there are none.
pub open spec fn eval_seq(
    fl: FloatFn,
    depth: nat,
    sc: ScopesModel,
    cs: Seq<AstModel>,
    i: int,
    last: ValueModel,
) -> Outcome
    decreases depth, cs.len() - i + 1,
{
    if !(0 <= i < cs.len()) {
        (Ok(last), sc)
    } else {
        let (r, sc1) = eval(fl, depth, sc, cs[i]);
        match r {
            Ok(v) => eval_seq(fl, depth, sc1, cs, i + 1, v),
            Err(e) => (Err(e), sc1),
        }
    }
}

/// Evaluates the arguments `cs[i..]` left to right after those in `acc`.
pub open spec fn eval_args(
    fl: FloatFn,
    depth: nat,
    sc: ScopesModel,
    cs: Seq<AstModel>,
    i: int,
    acc: Seq<ValueModel>,
) -> (Result<Seq<ValueModel>, ErrorModel>, ScopesModel)
    decreases depth, cs.len() - i + 1,
{
    if !(0 <= i < cs.len()) {
        (Ok(acc), sc)
    } else {
        let (r, sc1) = eval(fl, depth, sc, cs[i]);
        match r {
            Ok(v) => eval_args(fl, depth, sc1, cs, i + 1, acc.push(v)),
            Err(e) => (Err(e), sc1),
        }
    }
}

/// What the caller's closure returns for each operation: the result of one
/// call on an operation with that content.
pub open spec fn float_fn<F: Fn(FloatOp) -> u64>(f: F) -> FloatFn {
    |m: FloatOpModel|
        (choose|p: (FloatOp, u64)| p.0.model() == m && #[trigger] f.ensures((p.0,), p.1)).1
}

/// The closure accepts every operation, and its result depends on the
/// operation's content alone.
pub open spec fn float_ready<F: Fn(FloatOp) -> u64>(f: F) -> bool {
    &&& forall|x: FloatOp| #[trigger] f.requires((x,))
    &&& forall|x: FloatOp, y: FloatOp, r1: u64, r2: u64|
        x.model() == y.model() && #[trigger] f.ensures((x,), r1) && #[trigger] f.ensures((y,), r2)
            ==> r1 == r2
}

fn call_float<F: Fn(FloatOp) -> u64>(f: &F, op: FloatOp) -> (r: u64)
    requires
        float_ready(*f),
    ensures
        r == float_fn(*f)(op.model()),
{
    let ghost m = op.model();
    let ghost g = op;
    let r = f(op);
    proof {
        assert(g.model() == m && f.ensures((g,), r));
        assert(f.ensures(((g, r).0,), (g, r).1));
        let p2 = choose|p: (FloatOp, u64)| p.0.model() == m && #[trigger] f.ensures((p.0,), p.1);
        assert(f.ensures((p2.0,), p2.1));
        assert(float_fn(*f)(m) == p2.1);
    }
    r
}

pub open spec fn result_model(r: Result<Value, Error>) -> Result<ValueModel, ErrorModel> {
    match r {
        Ok(v) => Ok(v.model()),
        Err(e) => Err(e.model()),
    }
}

pub open spec fn values_model(v: Seq<Value>) -> Seq<ValueModel> {
    Seq::new(v.len(), |k: int| v[k].model())
}

/// A name bound to a value.
pub struct Binding {
    pub name: String,
    pub value: Value,
}

pub open spec fn scope_model(s: Seq<Binding>) -> ScopeModel {
    Seq::new(s.len(), |j: int| (s[j].name@, s[j].value.model()))
}

pub open spec fn scopes_model(v: Seq<Vec<Binding>>) -> ScopesModel {
    Seq::new(v.len(), |i: int| scope_model(v[i]@))
}

/// The deepest nesting of evaluations that the interpreter allows.
pub const MAX_DEPTH: usize = 1000;

fn literal_value_of<F: Fn(FloatOp) -> u64>(l: &Literal, f: &F) -> (r: Value)
    requires
        float_ready(*f),
    ensures
        r.model() == literal_value(float_fn(*f), l.model()),
{
    match l {
        Literal::Nil => Value::Nil,
        Literal::Bool(b) => Value::Bool(*b),
        Literal::Integer(n) => Value::Integer(*n),
        Literal::Float(s) => Value::Float(call_float(f, FloatOp::Parse(s.clone()))),
        Literal::Str(s) => Value::Str(s.clone()),
    }
}

fn unary<F: Fn(FloatOp) -> u64>(op: Operator, v: Value, f: &F) -> (r: Result<Value, Error>)
    requires
        float_ready(*f),
    ensures
        result_model(r) == unary_spec(float_fn(*f), op, v.model()),
{
    match op {
        Operator::Not => match v {
            Value::Bool(b) => Ok(Value::Bool(!b)),
            _ => Err(Error::TypeError { expected: Kind::Bool, found: v.kind() }),
        },
        Operator::Negate => match v {
            Value::Integer(n) => if n == i64::MIN {
                Err(Error::Overflow)
            } else {
                Ok(Value::Integer(-n))
            },
            Value::Float(x) => Ok(Value::Float(call_float(f, FloatOp::Negate(x)))),
            _ => Err(Error::TypeError { expected: Kind::Number, found: v.kind() }),
        },
        _ => Err(Error::InvalidOperator),
    }
}

fn equal<F: Fn(FloatOp) -> u64>(a: &Value, b: &Value, f: &F) -> (r: bool)
    requires
        float_ready(*f),
    ensures
        r == values_equal(float_fn(*f), a.model(), b.model()),
{
    match (a, b) {
        (Value::Nil, Value::Nil) => true,
        (Value::Bool(x), Value::Bool(y)) => *x == *y,
        (Value::Integer(x), Value::Integer(y)) => *x == *y,
        (Value::Float(x), Value::Float(y)) => call_float(f, FloatOp::Compare(*x, *y)) == 1,
        (Value::Str(x), Value::Str(y)) => *x == *y,
        (Value::Function(p, b1), Value::Function(q, b2)) => same_names(p, q) && b1.same(b2),
        _ => false,
    }
}

fn int_result_of(x: i128) -> (r: Result<Value, Error>)
    ensures
        result_model(r) == int_result(x as int),
{
    if i64::MIN as i128 <= x && x <= i64::MAX as i128 {
        Ok(Value::Integer(x as i64))
    } else {
        Err(Error::Overflow)
    }
}

fn int_arith_of(op: Operator, a: i64, b: i64) -> (r: Result<Value, Error>)
    requires
        is_arithmetic(op),
    ensures
        result_model(r) == int_arith(op, a as int, b as int),
{
    let x = a as i128;
    let y = b as i128;
    match op {
        Operator::Add => int_result_of(x + y),
        Operator::Subtract => int_result_of(x - y),
        Operator::Multiply => {
            assert(-0x8000_0000_0000_0000 * 0x8000_0000_0000_0000 <= x * y <= 0x8000_0000_0000_0000
                * 0x8000_0000_0000_0000) by (nonlinear_arith)
                requires
                    -0x8000_0000_0000_0000 <= x <= 0x7fff_ffff_ffff_ffff,
                    -0x8000_0000_0000_0000 <= y <= 0x7fff_ffff_ffff_ffff,
            ;
            int_result_of(x * y)
        },
        _ => {
            if b == 0 {
                return Err(Error::DivisionByZero);
            }
            let ux: u128 = if x < 0 {
                (-x) as u128
            } else {
                x as u128
            };
            let uy: u128 = if y < 0 {
                (-y) as u128
            } else {
                y as u128
            };
            let q = (ux / uy) as i128;
            assert(q as int == vstd::math::abs(a as int) / vstd::math::abs(b as int));
            if (x < 0) != (y < 0) {
                int_result_of(-q)
            } else {
                int_result_of(q)
            }
        },
    }
}

fn order_holds_of(op: Operator, c: i8) -> (r: bool)
    ensures
        r == order_holds(op, c as int),
{
    match op {
        Operator::Greater => c == 1,
        Operator::GreaterEqual => c == 1 || c == 0,
        Operator::Less => c == -1,
        _ => c == -1 || c == 0,
    }
}

fn to_float<F: Fn(FloatOp) -> u64>(v: &Value, f: &F) -> (r: u64)
    requires
        float_ready(*f),
        v is Integer || v is Float,
    ensures
        r == as_float(float_fn(*f), v.model()),
{
    match v {
        Value::Integer(n) => call_float(f, FloatOp::FromInt(*n)),
        Value::Float(x) => *x,
        _ => 0,
    }
}

fn binary<F: Fn(FloatOp) -> u64>(op: Operator, a: Value, b: Value, f: &F) -> (r: Result<Value, Error>)
    requires
        float_ready(*f),
    ensures
        result_model(r) == binary_spec(float_fn(*f), op, a.model(), b.model()),
{
    let arithmetic = match op {
        Operator::Add | Operator::Subtract | Operator::Multiply | Operator::Divide => true,
        _ => false,
    };
    let ordering = match op {
        Operator::Greater | Operator::GreaterEqual | Operator::Less | Operator::LessEqual => true,
        _ => false,
    };
    match op {
        Operator::Equal => {
            return Ok(Value::Bool(equal(&a, &b, f)));
        },
        Operator::NotEqual => {
            return Ok(Value::Bool(!equal(&a, &b, f)));
        },
        _ => {},
    }
    if !(arithmetic || ordering) {
        return Err(Error::InvalidOperator);
    }
    let na = match a.into_number() {
        Ok(n) => n,
        Err(e) => {
            return Err(e);
        },
    };
    let nb = match b.into_number() {
        Ok(n) => n,
        Err(e) => {
            return Err(e);
        },
    };
    if let (NumberValue::Integer(x), NumberValue::Integer(y)) = (na, nb) {
        if ordering {
            let c: i8 = if x < y {
                -1
            } else if x == y {
                0
            } else {
                1
            };
            return Ok(Value::Bool(order_holds_of(op, c)));
        }
        return int_arith_of(op, x, y);
    }
    let x = to_float(&a, f);
    let y = to_float(&b, f);
    if ordering {
        let c = call_float(f, FloatOp::Compare(x, y));
        let o: i8 = if c == 0 {
            -1
        } else if c == 1 {
            0
        } else if c == 2 {
            1
        } else {
            2
        };
        return Ok(Value::Bool(order_holds_of(op, o)));
    }
    let z = match op {
        Operator::Add => call_float(f, FloatOp::Add(x, y)),
        Operator::Subtract => call_float(f, FloatOp::Subtract(x, y)),
        Operator::Multiply => call_float(f, FloatOp::Multiply(x, y)),
        _ => call_float(f, FloatOp::Divide(x, y)),
    };
    Ok(Value::Float(z))
}

/// A tree-walking evaluator over a stack of scopes, innermost last. One
/// interpreter can evaluate many trees in turn: top-level declarations persist.
pub struct Interpreter {
    pub scopes: Vec<Vec<Binding>>,
}

impl Interpreter {
    pub open spec fn model(&self) -> ScopesModel {
        scopes_model(self.scopes@)
    }

    /// The stack is never empty.
    pub open spec fn wf(&self) -> bool {
        self.scopes@.len() > 0
    }

    /// An interpreter with one empty global scope.
    pub fn new() -> (r: Self)
        ensures
            r.wf(),
            r.model() == seq![ScopeModel::empty()],
    {
        let mut scopes: Vec<Vec<Binding>> = Vec::new();
        scopes.push(Vec::new());
        let r = Interpreter { scopes };
        assert(scope_model(r.scopes@[0]@) =~= ScopeModel::empty());
        assert(r.model() =~= seq![ScopeModel::empty()]);
        r
    }

    fn lookup_value(&self, name: &String) -> (r: Option<Value>)
        ensures
            match r {
                Some(v) => lookup(self.model(), name@) == Some(v.model()),
                None => lookup(self.model(), name@) is None,
            },
    {
        let ghost m = self.model();
        let mut i: usize = self.scopes.len();
        assert(m.take(i as int) =~= m);
        while i > 0
            invariant
                i <= self.scopes@.len(),
                m == self.model(),
                lookup(m, name@) == lookup(m.take(i as int), name@),
            decreases i,
        {
            let scope = &self.scopes[i - 1];
            let ghost sm = scope_model(scope@);
            assert(m.take(i as int).drop_last() =~= m.take(i - 1));
            assert(m.take(i as int).last() == sm);
            let mut j: usize = scope.len();
            assert(sm.take(j as int) =~= sm);
            while j > 0
                invariant
                    j <= scope@.len(),
                    sm == scope_model(scope@),
                    0 < i <= self.scopes@.len(),
                    m == self.model(),
                    m.take(i as int).last() == sm,
                    lookup(m, name@) == lookup(m.take(i as int), name@),
                    find_in(sm, name@) == find_in(sm.take(j as int), name@),
                decreases j,
            {
                assert(sm.take(j as int).drop_last() =~= sm.take(j - 1));
                if scope[j - 1].name == *name {
                    let v = scope[j - 1].value.copy();
                    assert(sm.take(j as int).last() == (name@, v.model()));
                    assert(find_in(sm, name@) == Some(v.model()));
                    assert(lookup(m.take(i as int), name@) == Some(v.model()));
                    return Some(v);
                }
                j = j - 1;
            }
            assert(sm.take(0) =~= ScopeModel::empty());
            i = i - 1;
        }
        assert(m.take(0) =~= ScopesModel::empty());
        None
    }

    fn declare_value(&mut self, name: String, value: Value)
        requires
            old(self).wf(),
        ensures
            final(self).wf(),
            final(self).scopes@.len() == old(self).scopes@.len(),
            final(self).model() == declare(old(self).model(), name@, value.model()),
    {
        let ghost m = self.model();
        let ghost entry = (name@, value.model());
        let mut top = self.scopes.pop().unwrap();
        let ghost top0 = top@;
        top.push(Binding { name, value });
        assert(scope_model(top@) =~= scope_model(top0).push(entry));
        self.scopes.push(top);
        assert(self.model() =~= declare(m, entry.0, entry.1));
    }

    fn frame(params: &Vec<String>, vals: &Vec<Value>) -> (r: Vec<Binding>)
        requires
            params@.len() == vals@.len(),
        ensures
            scope_model(r@) == bind(names_model(params@), values_model(vals@)),
    {
        let mut out: Vec<Binding> = Vec::new();
        let mut k: usize = 0;
        while k < params.len()
            invariant
                params@.len() == vals@.len(),
                k <= params@.len(),
                out@.len() == k,
                forall|j: int| 0 <= j < k ==> (#[trigger] out@[j]).name@ == params@[j]@ && out@[j].value.model() == vals@[j].model(),
            decreases params@.len() - k,
        {
            out.push(Binding { name: params[k].clone(), value: vals[k].copy() });
            k = k + 1;
        }
        assert(scope_model(out@) =~= bind(names_model(params@), values_model(vals@)));
        out
    }

    /// Evaluates `ast`, with `float` computing every floating-point operation.
    /// Declarations at the top level stay in the global scope.
    pub fn interpret<F: Fn(FloatOp) -> u64>(&mut self, ast: &Ast, float: &F) -> (r: Result<Value, Error>)
        requires
            old(self).wf(),
            float_ready(*float),
        ensures
            final(self).wf(),
            (result_model(r), final(self).model()) == eval(
                float_fn(*float),
                MAX_DEPTH as nat,
                old(self).model(),
                ast.model(),
            ),
    {
        self.eval(ast, float, MAX_DEPTH)
    }

    /// Evaluates each tree of `program` in turn in the current scope, stopping
    /// at the first error; the value is the last one's, or nil.
    pub fn run<F: Fn(FloatOp) -> u64>(&mut self, program: &Vec<Ast>, float: &F) -> (r: Result<Value, Error>)
        requires
            old(self).wf(),
            float_ready(*float),
        ensures
            final(self).wf(),
            (result_model(r), final(self).model()) == eval_seq(
                float_fn(*float),
                MAX_DEPTH as nat,
                old(self).model(),
                Ast::models(program@),
                0,
                ValueModel::Nil,
            ),
    {
        self.eval_block(program, float, MAX_DEPTH)
    }

    fn eval<F: Fn(FloatOp) -> u64>(&mut self, a: &Ast, f: &F, depth: usize) -> (r: Result<Value, Error>)
        requires
            old(self).wf(),
            float_ready(*f),
        ensures
            final(self).wf(),
            final(self).scopes@.len() == old(self).scopes@.len(),
            (result_model(r), final(self).model()) == eval(
                float_fn(*f),
                depth as nat,
                old(self).model(),
                a.model(),
            ),
        decreases depth, 0int,
    {
        if depth == 0 {
            return Err(Error::DepthExceeded);
        }
        let d = depth - 1;
        match a {
            Ast::Literal(l) => Ok(literal_value_of(l, f)),
            Ast::Declaration { name, value } => match self.eval(value, f, d) {
                Ok(v) => {
                    self.declare_value(name.clone(), v);
                    Ok(Value::Nil)
                },
                Err(e) => Err(e),
            },
            Ast::Reference(name) => match self.lookup_value(name) {
                Some(v) => Ok(v),
                None => Err(Error::ReferenceUndefinedError { name: name.clone() }),
            },
            Ast::Grouping(children) => {
                let ghost m = self.model();
                self.scopes.push(Vec::new());
                assert(scope_model(self.scopes@.last()@) =~= ScopeModel::empty());
                assert(self.model() =~= m.push(ScopeModel::empty()));
                let r = self.eval_block(children, f, d);
                let ghost m1 = self.model();
                let _ = self.scopes.pop();
                assert(self.model() =~= m1.drop_last());
                r
            },
            Ast::Operation(Operation::Unary { operator, operand }) => match self.eval(operand, f, d) {
                Ok(v) => unary(*operator, v, f),
                Err(e) => Err(e),
            },
            Ast::Operation(Operation::Binary { operator, left, right }) => match self.eval(left, f, d) {
                Ok(x) => match self.eval(right, f, d) {
                    Ok(y) => binary(*operator, x, y, f),
                    Err(e) => Err(e),
                },
                Err(e) => Err(e),
            },
            Ast::Function { arguments, body } => {
                let r = Value::Function(copy_names(arguments), Box::new(body.copy()));
                Ok(r)
            },
            Ast::FunctionApplication { function, arguments } => match self.eval(function, f, d) {
                Ok(Value::Function(params, body)) => match self.eval_args(arguments, f, d) {
                    Ok(vals) => {
                        if vals.len() != params.len() {
                            Err(Error::ArityError { expected: params.len(), found: vals.len() })
                        } else {
                            let ghost m = self.model();
                            let fr = Self::frame(&params, &vals);
                            self.scopes.push(fr);
                            assert(self.model() =~= m.push(bind(names_model(params@), values_model(vals@))));
                            let r = self.eval(&body, f, d);
                            let ghost m1 = self.model();
                            let _ = self.scopes.pop();
                            assert(self.model() =~= m1.drop_last());
                            r
                        }
                    },
                    Err(e) => Err(e),
                },
                Ok(v) => Err(Error::TypeError { expected: Kind::Function, found: v.kind() }),
                Err(e) => Err(e),
            },
        }
    }

    fn eval_block<F: Fn(FloatOp) -> u64>(&mut self, cs: &Vec<Ast>, f: &F, depth: usize) -> (r: Result<Value, Error>)
        requires
            old(self).wf(),
            float_ready(*f),
        ensures
            final(self).wf(),
            final(self).scopes@.len() == old(self).scopes@.len(),
            (result_model(r), final(self).model()) == eval_seq(
                float_fn(*f),
                depth as nat,
                old(self).model(),
                Ast::models(cs@),
                0,
                ValueModel::Nil,
            ),
        decreases depth, 1int,
    {
        let ghost fl = float_fn(*f);
        let ghost ms = Ast::models(cs@);
        let ghost target = eval_seq(fl, depth as nat, self.model(), ms, 0, ValueModel::Nil);
        proof {
            Ast::lemma_models(cs@);
        }
        let mut last = Value::Nil;
        let mut i: usize = 0;
        while i < cs.len()
            invariant
                self.wf(),
                self.scopes@.len() == old(self).scopes@.len(),
                float_ready(*f),
                fl == float_fn(*f),
                ms == Ast::models(cs@),
                ms.len() == cs@.len(),
                forall|k: int| 0 <= k < cs@.len() ==> #[trigger] ms[k] == cs@[k].model(),
                i <= cs@.len(),
                target == eval_seq(fl, depth as nat, old(self).model(), ms, 0, ValueModel::Nil),
                target == eval_seq(fl, depth as nat, self.model(), ms, i as int, last.model()),
            decreases cs@.len() - i,
        {
            match self.eval(&cs[i], f, depth) {
                Ok(v) => {
                    last = v;
                },
                Err(e) => {
                    return Err(e);
                },
            }
            i = i + 1;
        }
        Ok(last)
    }

    fn eval_args<F: Fn(FloatOp) -> u64>(&mut self, cs: &Vec<Ast>, f: &F, depth: usize) -> (r: Result<Vec<Value>, Error>)
        requires
            old(self).wf(),
            float_ready(*f),
        ensures
            final(self).wf(),
            final(self).scopes@.len() == old(self).scopes@.len(),
            ({
                let (s, sc) = eval_args(
                    float_fn(*f),
                    depth as nat,
                    old(self).model(),
                    Ast::models(cs@),
                    0,
                    Seq::empty(),
                );
                &&& sc == final(self).model()
                &&& match r {
                    Ok(v) => s == Ok::<Seq<ValueModel>, ErrorModel>(values_model(v@)),
                    Err(e) => s == Err::<Seq<ValueModel>, ErrorModel>(e.model()),
                }
            }),
        decreases depth, 1int,
    {
        let ghost fl = float_fn(*f);
        let ghost ms = Ast::models(cs@);
        let ghost target = eval_args(fl, depth as nat, self.model(), ms, 0, Seq::empty());
        proof {
            Ast::lemma_models(cs@);
            assert(values_model(Seq::<Value>::empty()) =~= Seq::<ValueModel>::empty());
        }
        let mut vals: Vec<Value> = Vec::new();
        let mut i: usize = 0;
        while i < cs.len()
            invariant
                self.wf(),
                self.scopes@.len() == old(self).scopes@.len(),
                float_ready(*f),
                fl == float_fn(*f),
                ms == Ast::models(cs@),
                ms.len() == cs@.len(),
                forall|k: int| 0 <= k < cs@.len() ==> #[trigger] ms[k] == cs@[k].model(),
                i <= cs@.len(),
                target == eval_args(fl, depth as nat, old(self).model(), ms, 0, Seq::empty()),
                target == eval_args(fl, depth as nat, self.model(), ms, i as int, values_model(vals@)),
            decreases cs@.len() - i,
        {
            match self.eval(&cs[i], f, depth) {
                Ok(v) => {
                    let ghost before = vals@;
                    let ghost vm = v.model();
                    vals.push(v);
                    assert(values_model(vals@) =~= values_model(before).push(vm));
                },
                Err(e) => {
                    return Err(e);
                },
            }
            i = i + 1;
        }
        Ok(vals)
    }
}

/// Evaluates `ast` in a fresh interpreter.
pub fn interpret<F: Fn(FloatOp) -> u64>(ast: &Ast, float: &F) -> (r: Result<Value, Error>)
    requires
        float_ready(*float),
    ensures
        result_model(r) == eval(
            float_fn(*float),
            MAX_DEPTH as nat,
            seq![ScopeModel::empty()],
            ast.model(),
        ).0,
{
    let mut interp = Interpreter::new();
    interp.interpret(ast, float)
}

/// `after` has as many frames as `before`, and all but the innermost are the same.
pub open spec fn keeps_outer(before: ScopesModel, after: ScopesModel) -> bool {
    &&& after.len() == before.len()
    &&& forall|k: int| 0 <= k < before.len() - 1 ==> #[trigger] after[k] == before[k]
}

/// Evaluating any tree changes at most the innermost frame of the stack.
pub proof fn lemma_eval_keeps_outer(fl: FloatFn, depth: nat, sc: ScopesModel, a: AstModel)
    requires
        sc.len() > 0,
    ensures
        keeps_outer(sc, eval(fl, depth, sc, a).1),
    decreases depth, 0int,
{
    if depth > 0 {
        let d = (depth - 1) as nat;
        match a {
            AstModel::Declaration(name, value) => {
                lemma_eval_keeps_outer(fl, d, sc, *value);
            },
            AstModel::Grouping(children) => {
                lemma_seq_keeps_outer(fl, d, sc.push(Seq::empty()), children, 0, ValueModel::Nil);
                let sc1 = eval_seq(fl, d, sc.push(Seq::empty()), children, 0, ValueModel::Nil).1;
                assert(sc1.drop_last() =~= sc);
            },
            AstModel::Unary(op, operand) => {
                lemma_eval_keeps_outer(fl, d, sc, *operand);
            },
            AstModel::Binary(op, left, right) => {
                lemma_eval_keeps_outer(fl, d, sc, *left);
                let sc1 = eval(fl, d, sc, *left).1;
                lemma_eval_keeps_outer(fl, d, sc1, *right);
            },
            AstModel::Application(callee, args) => {
                lemma_eval_keeps_outer(fl, d, sc, *callee);
                let (r1, sc1) = eval(fl, d, sc, *callee);
                if let Ok(ValueModel::Function(params, body)) = r1 {
                    lemma_args_keeps_outer(fl, d, sc1, args, 0, Seq::empty());
                    let (r2, sc2) = eval_args(fl, d, sc1, args, 0, Seq::empty());
                    if let Ok(vals) = r2 {
                        if vals.len() == params.len() {
                            let inner = sc2.push(bind(params, vals));
                            lemma_eval_keeps_outer(fl, d, inner, body);
                            assert(eval(fl, d, inner, body).1.drop_last() =~= sc2);
                        }
                    }
                }
            },
            _ => {},
        }
    }
}

/// Evaluating a sequence of trees changes at most the innermost frame.
pub proof fn lemma_seq_keeps_outer(
    fl: FloatFn,
    depth: nat,
    sc: ScopesModel,
    cs: Seq<AstModel>,
    i: int,
    last: ValueModel,
)
    requires
        sc.len() > 0,
    ensures
        keeps_outer(sc, eval_seq(fl, depth, sc, cs, i, last).1),
    decreases depth, cs.len() - i + 1,
{
    if 0 <= i < cs.len() {
        lemma_eval_keeps_outer(fl, depth, sc, cs[i]);
        let (r, sc1) = eval(fl, depth, sc, cs[i]);
        if let Ok(v) = r {
            lemma_seq_keeps_outer(fl, depth, sc1, cs, i + 1, v);
        }
    }
}

/// Evaluating arguments changes at most the innermost frame.
pub proof fn lemma_args_keeps_outer(
    fl: FloatFn,
    depth: nat,
    sc: ScopesModel,
    cs: Seq<AstModel>,
    i: int,
    acc: Seq<ValueModel>,
)
    requires
        sc.len() > 0,
    ensures
        keeps_outer(sc, eval_args(fl, depth, sc, cs, i, acc).1),
    decreases depth, cs.len() - i + 1,
{
    if 0 <= i < cs.len() {
        lemma_eval_keeps_outer(fl, depth, sc, cs[i]);
        let (r, sc1) = eval(fl, depth, sc, cs[i]);
        if let Ok(v) = r {
            lemma_args_keeps_outer(fl, depth, sc1, cs, i + 1, acc.push(v));
        }
    }
}

/// A block restores the scope stack it started from, whether it succeeds or
/// fails: what it declares is gone once it ends.
pub proof fn lemma_block_restores_scopes(
    fl: FloatFn,
    depth: nat,
    sc: ScopesModel,
    children: Seq<AstModel>,
)
    requires
        sc.len() > 0,
    ensures
        eval(fl, depth, sc, AstModel::Grouping(children)).1 == sc,
{
    lemma_eval_keeps_outer(fl, depth, sc, AstModel::Grouping(children));
    if depth > 0 {
        let d = (depth - 1) as nat;
        lemma_seq_keeps_outer(fl, d, sc.push(Seq::empty()), children, 0, ValueModel::Nil);
        let sc1 = eval_seq(fl, d, sc.push(Seq::empty()), children, 0, ValueModel::Nil).1;
        assert(sc1.drop_last() =~= sc);
    }
}

/// Equality never holds between values of different kinds, whatever the
/// float operations return: an integer never equals a float.
pub proof fn lemma_cross_kind_unequal(fl: FloatFn, a: ValueModel, b: ValueModel)
    requires
        kind_of(a) != kind_of(b),
    ensures
        binary_spec(fl, Operator::Equal, a, b) == Ok::<ValueModel, ErrorModel>(ValueModel::Bool(false)),
        binary_spec(fl, Operator::NotEqual, a, b) == Ok::<ValueModel, ErrorModel>(ValueModel::Bool(true)),
{
}

/// With two integer operands, arithmetic stays integral; with a float among
/// them, both are widened and the result is a float.
pub proof fn lemma_numeric_coercion(fl: FloatFn, op: Operator, a: ValueModel, b: ValueModel)
    requires
        is_arithmetic(op),
        is_number(a),
        is_number(b),
    ensures
        a is Integer && b is Integer ==> binary_spec(fl, op, a, b) == int_arith(
            op,
            a->Integer_0 as int,
            b->Integer_0 as int,
        ),
        (a is Float || b is Float) ==> binary_spec(fl, op, a, b) == Ok::<ValueModel, ErrorModel>(
            ValueModel::Float(float_arith(fl, op, as_float(fl, a), as_float(fl, b))),
        ),
{
}

/// A name that no frame binds fails to evaluate, with that name.
pub proof fn lemma_undefined_reference(fl: FloatFn, depth: nat, sc: ScopesModel, name: Seq<char>)
    requires
        depth > 0,
        lookup(sc, name) is None,
    ensures
        eval(fl, depth, sc, AstModel::Reference(name)) == (
            Err::<ValueModel, ErrorModel>(ErrorModel::ReferenceUndefined(name)),
            sc,
        ),
{
}

/// A fresh interpreter binds no name.
pub proof fn lemma_fresh_binds_nothing(name: Seq<char>)
    ensures
        lookup(seq![ScopeModel::empty()], name) is None,
{
    let sc = seq![ScopeModel::empty()];
    assert(sc.drop_last() =~= ScopesModel::empty());
    assert(find_in(sc.last(), name) is None);
    assert(lookup(ScopesModel::empty(), name) is None);
}

} // verus!
