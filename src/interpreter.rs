//! The tree-walking evaluator and its scope stack.
use vstd::prelude::*;
use crate::ast::{
    BinaryOperator, Expr, ExprModel, LitModel, Literal, LogicalOperator, Program, Stmt, StmtModel,
    UnaryOperator, expr_model, stmt_model, stmts_model, lemma_stmts_model_index,
};
use crate::text::push_all;

verus! {

/// The arithmetic of numbers, supplied by the embedder (for instance over
/// double-precision floats). The evaluator decides everything else itself.
pub trait Numeric: Sized + Copy {
    /// The number that a literal such as `12.5` denotes.
    fn from_literal(text: &str) -> Self;

    fn add(self, other: Self) -> Self;

    fn sub(self, other: Self) -> Self;

    fn mul(self, other: Self) -> Self;

    fn div(self, other: Self) -> Self;

    fn neg(self) -> Self;

    fn less(self, other: Self) -> bool;

    fn less_eq(self, other: Self) -> bool;

    fn equals(self, other: Self) -> bool;

    /// The display form of the number.
    fn render(self) -> String;
}

/// A runtime value.
pub enum Value<N> {
    Nil,
    Bool(bool),
    Number(N),
    String(String),
}

/// A runtime value as a value of the model.
pub enum ValueModel<N> {
    Nil,
    Bool(bool),
    Number(N),
    Str(Seq<char>),
}

impl<N> View for Value<N> {
    type V = ValueModel<N>;

    open spec fn view(&self) -> ValueModel<N> {
        match self {
            Value::Nil => ValueModel::Nil,
            Value::Bool(b) => ValueModel::Bool(*b),
            Value::Number(n) => ValueModel::Number(*n),
            Value::String(s) => ValueModel::Str(s@),
        }
    }
}

/// A runtime error: the line of the node that raised it, and a message.
#[derive(Clone, Debug)]
pub struct RuntimeError {
    pub line: usize,
    pub msg: String,
}

/// A runtime error as a value.
pub struct RuntimeErrorModel {
    pub line: nat,
    pub msg: Seq<char>,
}

impl View for RuntimeError {
    type V = RuntimeErrorModel;

    open spec fn view(&self) -> RuntimeErrorModel {
        RuntimeErrorModel { line: self.line as nat, msg: self.msg@ }
    }
}

impl RuntimeError {
    fn new(line: usize, msg: String) -> (r: Self)
        ensures
            r.line == line,
            r.msg@ == msg@,
    {
        Self { line, msg }
    }
}

/// Nil and false are falsy; every other value is truthy.
pub open spec fn truthy<N>(v: ValueModel<N>) -> bool {
    match v {
        ValueModel::Nil => false,
        ValueModel::Bool(b) => b,
        _ => true,
    }
}

fn to_bool<N: Numeric>(val: &Value<N>) -> (r: bool)
    ensures
        r == truthy(val@),
{
    match val {
        Value::Nil => false,
        Value::Bool(b) => *b,
        _ => true,
    }
}

fn copy_value<N: Numeric>(v: &Value<N>) -> (r: Value<N>)
    ensures
        r@ == v@,
{
    match v {
        Value::Nil => Value::Nil,
        Value::Bool(b) => Value::Bool(*b),
        Value::Number(n) => Value::Number(*n),
        Value::String(s) => Value::String(s.clone()),
    }
}

/// One scope: its bindings in order of creation; a later one hides an earlier
/// one of the same name.
pub open spec fn scope_map<N>(entries: Seq<(String, Value<N>)>, n: int) -> Map<Seq<char>, ValueModel<N>>
    decreases n,
{
    if n <= 0 || n > entries.len() {
        Map::empty()
    } else {
        scope_map(entries, n - 1).insert(entries[n - 1].0@, entries[n - 1].1@)
    }
}

/// The stack of scopes, innermost last.
pub type EnvModel<N> = Seq<Map<Seq<char>, ValueModel<N>>>;

/// The value of `name` in the innermost of the first `n` scopes that binds it.
pub open spec fn lookup_in<N>(env: EnvModel<N>, name: Seq<char>, n: int) -> Option<ValueModel<N>>
    decreases n,
{
    if n <= 0 || n > env.len() {
        None
    } else if env[n - 1].contains_key(name) {
        Some(env[n - 1][name])
    } else {
        lookup_in(env, name, n - 1)
    }
}

/// The value of `name` in the innermost scope that binds it.
pub open spec fn env_lookup<N>(env: EnvModel<N>, name: Seq<char>) -> Option<ValueModel<N>> {
    lookup_in(env, name, env.len() as int)
}

/// The innermost of the first `n` scopes that binds `name`.
pub open spec fn binding_scope<N>(env: EnvModel<N>, name: Seq<char>, n: int) -> Option<int>
    decreases n,
{
    if n <= 0 || n > env.len() {
        None
    } else if env[n - 1].contains_key(name) {
        Some(n - 1)
    } else {
        binding_scope(env, name, n - 1)
    }
}

/// `env` with the nearest binding of `name` overwritten by `v`; none where no
/// scope binds `name`.
pub open spec fn env_assign<N>(env: EnvModel<N>, name: Seq<char>, v: ValueModel<N>) -> Option<
    EnvModel<N>,
> {
    match binding_scope(env, name, env.len() as int) {
        Some(i) => Some(env.update(i, env[i].insert(name, v))),
        None => None,
    }
}

/// `env` with `name` bound to `v` in the innermost scope.
pub open spec fn env_declare<N>(env: EnvModel<N>, name: Seq<char>, v: ValueModel<N>) -> EnvModel<N> {
    env.update(env.len() - 1, env.last().insert(name, v))
}

/// The scope stack of one evaluation run; the global scope is never popped.
pub struct Environment<N> {
    scopes: Vec<Vec<(String, Value<N>)>>,
}

impl<N> View for Environment<N> {
    type V = EnvModel<N>;

    closed spec fn view(&self) -> EnvModel<N> {
        self.scopes@.map_values(|s: Vec<(String, Value<N>)>| scope_map(s@, s@.len() as int))
    }
}

impl<N: Numeric> Environment<N> {
    /// Whether the global scope is there.
    pub open spec fn wf(&self) -> bool {
        self@.len() >= 1
    }

    /// A fresh environment with an empty global scope.
    pub fn new() -> (r: Self)
        ensures
            r@ == seq![Map::<Seq<char>, ValueModel<N>>::empty()],
    {
        let mut scopes = Vec::new();
        scopes.push(Vec::new());
        let r = Environment { scopes };
        proof {
            assert(r@ =~= seq![Map::<Seq<char>, ValueModel<N>>::empty()]);
        }
        r
    }
}


/// The position of the last binding of `name` in `entries`, if any.
fn scope_find<N>(entries: &Vec<(String, Value<N>)>, name: &String) -> (r: Option<usize>)
    ensures
        match r {
            Some(j) => {
                &&& j < entries@.len()
                &&& entries@[j as int].0@ == name@
                &&& forall|k: int| j < k < entries@.len() ==> (#[trigger] entries@[k]).0@ != name@
                &&& scope_map(entries@, entries@.len() as int).contains_key(name@)
                &&& scope_map(entries@, entries@.len() as int)[name@] == entries@[j as int].1@
            },
            None => !scope_map(entries@, entries@.len() as int).contains_key(name@),
        },
{
    let ghost e = entries@;
    let ghost n = entries@.len() as int;
    let mut i: usize = entries.len();
    while i > 0
        invariant
            i <= n == e.len(),
            e == entries@,
            forall|k: int| i <= k < n ==> (#[trigger] e[k]).0@ != name@,
            scope_map(e, n).contains_key(name@) == scope_map(e, i as int).contains_key(name@),
            scope_map(e, n).contains_key(name@) ==> scope_map(e, n)[name@] == scope_map(
                e,
                i as int,
            )[name@],
        decreases i,
    {
        if entries[i - 1].0 == *name {
            return Some(i - 1);
        }
        i -= 1;
    }
    None
}

proof fn lemma_scope_replace<N>(
    e: Seq<(String, Value<N>)>,
    j: int,
    entry: (String, Value<N>),
    m: int,
)
    requires
        0 <= j < m <= e.len(),
        e[j].0@ == entry.0@,
        forall|k: int| j < k < e.len() ==> (#[trigger] e[k]).0@ != entry.0@,
    ensures
        scope_map(e.update(j, entry), m) == scope_map(e, m).insert(entry.0@, entry.1@),
    decreases m,
{
    let e2 = e.update(j, entry);
    if m == j + 1 {
        assert(scope_map(e2, j) == scope_map(e, j)) by {
            lemma_scope_prefix(e, e2, j);
        }
        assert(scope_map(e2, m) =~= scope_map(e, m).insert(entry.0@, entry.1@));
    } else {
        lemma_scope_replace(e, j, entry, m - 1);
        assert(scope_map(e2, m) =~= scope_map(e, m).insert(entry.0@, entry.1@));
    }
}

proof fn lemma_scope_prefix<N>(e1: Seq<(String, Value<N>)>, e2: Seq<(String, Value<N>)>, n: int)
    requires
        0 <= n <= e1.len(),
        n <= e2.len(),
        forall|k: int| 0 <= k < n ==> e1[k] == e2[k],
    ensures
        scope_map(e1, n) == scope_map(e2, n),
    decreases n,
{
    if n > 0 {
        lemma_scope_prefix(e1, e2, n - 1);
    }
}

impl<N: Numeric> Environment<N> {
    /// The value of `name` in the innermost scope that binds it.
    fn get(&self, name: &String) -> (r: Option<Value<N>>)
        ensures
            match r {
                Some(v) => env_lookup(self@, name@) == Some(v@),
                None => env_lookup(self@, name@) is None,
            },
    {
        let ghost env = self@;
        let mut i: usize = self.scopes.len();
        while i > 0
            invariant
                i <= self.scopes@.len(),
                env == self@,
                env.len() == self.scopes@.len(),
                lookup_in(env, name@, i as int) == env_lookup(env, name@),
            decreases i,
        {
            let scope = &self.scopes[i - 1];
            assert(env[i - 1] == scope_map(scope@, scope@.len() as int));
            match scope_find(scope, name) {
                Some(j) => {
                    return Some(copy_value(&scope[j].1));
                },
                None => {},
            }
            i -= 1;
        }
        None
    }

    /// Overwrites the nearest binding of `name` with `val`; false where no
    /// scope binds `name`, and then nothing changes.
    fn set(&mut self, name: &String, val: Value<N>) -> (r: bool)
        ensures
            final(self)@.len() == old(self)@.len(),
            match env_assign(old(self)@, name@, val@) {
                Some(env2) => r && final(self)@ == env2,
                None => !r && final(self)@ == old(self)@,
            },
    {
        let ghost env = self@;
        let mut i: usize = self.scopes.len();
        while i > 0
            invariant
                i <= self.scopes@.len(),
                env == self@,
                env == old(self)@,
                env.len() == self.scopes@.len(),
                binding_scope(env, name@, i as int) == binding_scope(env, name@, env.len() as int),
            decreases i,
        {
            let ghost scope_view = self.scopes@[i - 1];
            assert(env[i - 1] == scope_map(scope_view@, scope_view@.len() as int));
            match scope_find(&self.scopes[i - 1], name) {
                Some(j) => {
                    let mut scope: Vec<(String, Value<N>)> = Vec::new();
                    self.scopes.set_and_swap(i - 1, &mut scope);
                    let entry = (name.clone(), val);
                    proof {
                        lemma_scope_replace(scope@, j as int, entry, scope@.len() as int);
                    }
                    scope.set(j, entry);
                    self.scopes.set(i - 1, scope);
                    proof {
                        assert(self@ =~= env.update(i - 1, env[i - 1].insert(name@, val@)));
                    }
                    return true;
                },
                None => {},
            }
            i -= 1;
        }
        false
    }

    /// Binds `name` to `val` in the innermost scope, replacing a binding of
    /// the same name there.
    fn declare(&mut self, name: &String, val: Value<N>)
        requires
            old(self).wf(),
        ensures
            final(self)@ == env_declare(old(self)@, name@, val@),
    {
        let ghost env = self@;
        let last = self.scopes.len() - 1;
        let mut scope: Vec<(String, Value<N>)> = Vec::new();
        self.scopes.set_and_swap(last, &mut scope);
        let ghost before = scope@;
        match scope_find(&scope, name) {
            Some(j) => {
                let entry = (name.clone(), val);
                proof {
                    lemma_scope_replace(scope@, j as int, entry, scope@.len() as int);
                }
                scope.set(j, entry);
            },
            None => {
                scope.push((name.clone(), val));
                proof {
                    lemma_scope_prefix(before, scope@, before.len() as int);
                }
            },
        }
        self.scopes.set(last, scope);
        proof {
            assert(self@ =~= env_declare(env, name@, val@));
        }
    }

    /// Enters a new, empty innermost scope.
    fn push(&mut self)
        ensures
            final(self)@ == old(self)@.push(Map::empty()),
    {
        self.scopes.push(Vec::new());
        proof {
            assert(self@ =~= old(self)@.push(Map::empty()));
        }
    }

    /// Leaves the innermost scope.
    fn pop(&mut self)
        requires
            old(self)@.len() >= 1,
        ensures
            final(self)@ == old(self)@.drop_last(),
    {
        self.scopes.pop();
        proof {
            assert(self@ =~= old(self)@.drop_last());
        }
    }
}


/// The outcome of evaluating an expression.
pub type Outcome<N> = Result<ValueModel<N>, RuntimeErrorModel>;

/// The error `msg` at `line`.
pub open spec fn fail<N>(line: nat, msg: Seq<char>) -> Outcome<N> {
    Err(RuntimeErrorModel { line, msg })
}

pub open spec fn undefined_message(name: Seq<char>) -> Seq<char> {
    "Undefined variable '"@ + name + "'."@
}

pub open spec fn undeclared_message(name: Seq<char>) -> Seq<char> {
    "Variable '"@ + name + "' not declared before assignment"@
}

/// Whether `out` is some number.
pub open spec fn is_number<N>(out: Outcome<N>) -> bool {
    out is Ok && out->Ok_0 is Number
}

/// Whether `out` is some boolean.
pub open spec fn is_bool<N>(out: Outcome<N>) -> bool {
    out is Ok && out->Ok_0 is Bool
}

/// Whether `a == b` holds by structure; numbers are left to the arithmetic.
pub open spec fn plain_equal<N>(a: ValueModel<N>, b: ValueModel<N>) -> bool {
    match (a, b) {
        (ValueModel::Nil, ValueModel::Nil) => true,
        (ValueModel::Bool(x), ValueModel::Bool(y)) => x == y,
        (ValueModel::Str(x), ValueModel::Str(y)) => x == y,
        _ => false,
    }
}

/// Whether `out` may be the result of the unary operator `op` at `line` on `v`.
pub open spec fn unary_result<N>(op: UnaryOperator, line: nat, v: ValueModel<N>, out: Outcome<N>) -> bool {
    match op {
        UnaryOperator::Not => out == Ok::<ValueModel<N>, RuntimeErrorModel>(ValueModel::Bool(!truthy(v))),
        UnaryOperator::Negative => if v is Number {
            is_number(out)
        } else {
            out == fail::<N>(line, "Expecting a number"@)
        },
    }
}

/// Whether `out` may be the result of the binary operator `op` at `line` on
/// `a` and `b`. Where both are numbers the arithmetic decides the value; the
/// evaluator decides its kind and every other case.
pub open spec fn binary_result<N>(
    op: BinaryOperator,
    line: nat,
    a: ValueModel<N>,
    b: ValueModel<N>,
    out: Outcome<N>,
) -> bool {
    let both_numbers = a is Number && b is Number;
    match op {
        BinaryOperator::Add => match (a, b) {
            (ValueModel::Number(_), ValueModel::Number(_)) => is_number(out),
            (ValueModel::Str(x), ValueModel::Str(y)) => out == Ok::<
                ValueModel<N>,
                RuntimeErrorModel,
            >(ValueModel::Str(x + y)),
            (ValueModel::Number(_), _) => out == fail::<N>(line, "Expecting a number"@),
            (ValueModel::Str(_), _) => out == fail::<N>(line, "Expecting a string"@),
            _ => out == fail::<N>(line, "Expecting a number or a string"@),
        },
        BinaryOperator::Sub | BinaryOperator::Mul | BinaryOperator::Div => if both_numbers {
            is_number(out)
        } else {
            out == fail::<N>(line, "Expecting a number"@)
        },
        BinaryOperator::Equal => if both_numbers {
            is_bool(out)
        } else {
            out == Ok::<ValueModel<N>, RuntimeErrorModel>(ValueModel::Bool(plain_equal(a, b)))
        },
        BinaryOperator::NotEqual => if both_numbers {
            is_bool(out)
        } else {
            out == Ok::<ValueModel<N>, RuntimeErrorModel>(ValueModel::Bool(!plain_equal(a, b)))
        },
        _ => if both_numbers {
            is_bool(out)
        } else {
            out == fail::<N>(line, "Expecting a number"@)
        },
    }
}

/// Whether the left operand `v` of `op` settles the result without the right one.
pub open spec fn short_circuits<N>(op: LogicalOperator, v: ValueModel<N>) -> bool {
    match op {
        LogicalOperator::And => !truthy(v),
        LogicalOperator::Or => truthy(v),
    }
}

/// The record of how an evaluation went: the outcome and the environment
/// after the first operand, the outcome of the second, and the records of
/// the operands' own evaluations.
pub enum Deriv<N> {
    Leaf,
    Step(Outcome<N>, EnvModel<N>, Box<Deriv<N>>, Outcome<N>, Box<Deriv<N>>),
}

/// Whether `d` records an evaluation of `e` in `env` that gives `out` and
/// leaves `env2`. Operands are evaluated left to right; the first error ends
/// the evaluation.
pub open spec fn valid<N>(
    e: ExprModel,
    env: EnvModel<N>,
    out: Outcome<N>,
    env2: EnvModel<N>,
    d: Deriv<N>,
) -> bool
    decreases e,
{
    match e {
        ExprModel::Literal(_, l) => env2 == env && match l {
            LitModel::Number(_) => is_number(out),
            LitModel::Str(s) => out == Ok::<ValueModel<N>, RuntimeErrorModel>(ValueModel::Str(s)),
            LitModel::True => out == Ok::<ValueModel<N>, RuntimeErrorModel>(ValueModel::Bool(true)),
            LitModel::False => out == Ok::<ValueModel<N>, RuntimeErrorModel>(
                ValueModel::Bool(false),
            ),
            LitModel::Nil => out == Ok::<ValueModel<N>, RuntimeErrorModel>(ValueModel::Nil),
        },
        ExprModel::Variable(line, name) => env2 == env && match env_lookup(env, name) {
            Some(v) => out == Ok::<ValueModel<N>, RuntimeErrorModel>(v),
            None => out == fail::<N>(line, undefined_message(name)),
        },
        ExprModel::Grouping(_, inner) => valid(*inner, env, out, env2, d),
        ExprModel::Unary(line, op, inner) => match d {
            Deriv::Step(v, mid, dv, _, _) => valid(*inner, env, v, mid, *dv) && env2 == mid
                && match v {
                Ok(x) => unary_result(op, line, x, out),
                Err(_) => out == v,
            },
            Deriv::Leaf => false,
        },
        ExprModel::Binary(line, l, op, r) => match d {
            Deriv::Step(lv, mid, dl, rv, dr) => valid(*l, env, lv, mid, *dl) && match lv {
                Err(_) => out == lv && env2 == mid,
                Ok(a) => valid(*r, mid, rv, env2, *dr) && match rv {
                    Err(_) => out == rv,
                    Ok(b) => binary_result(op, line, a, b, out),
                },
            },
            Deriv::Leaf => false,
        },
        ExprModel::Logical(_, l, op, r) => match d {
            Deriv::Step(lv, mid, dl, _, dr) => valid(*l, env, lv, mid, *dl) && match lv {
                Err(_) => out == lv && env2 == mid,
                Ok(a) => if short_circuits(op, a) {
                    out == lv && env2 == mid
                } else {
                    valid(*r, mid, out, env2, *dr)
                },
            },
            Deriv::Leaf => false,
        },
        ExprModel::Assign(line, name, rhs) => match d {
            Deriv::Step(v, mid, dv, _, _) => valid(*rhs, env, v, mid, *dv) && match v {
                Err(_) => out == v && env2 == mid,
                Ok(x) => match env_assign(mid, name, x) {
                    Some(env3) => out == v && env2 == env3,
                    None => out == fail::<N>(line, undeclared_message(name)) && env2 == mid,
                },
            },
            Deriv::Leaf => false,
        },
    }
}

/// Whether evaluating `e` in `env` may give `out` and leave `env2`: where
/// both operands of an arithmetic operator or comparison are numbers, the
/// arithmetic decides the number or the truth value; everything else is
/// decided here.
pub open spec fn evals<N>(e: ExprModel, env: EnvModel<N>, out: Outcome<N>, env2: EnvModel<N>) -> bool {
    exists|d: Deriv<N>| #[trigger] valid(e, env, out, env2, d)
}

/// The outcome that `r` stands for.
pub open spec fn outcome<N>(r: Result<Value<N>, RuntimeError>) -> Outcome<N> {
    match r {
        Ok(v) => Ok(v@),
        Err(e) => Err(e@),
    }
}


fn error_at(line: usize, msg: &str) -> (r: RuntimeError)
    ensures
        r@ == (RuntimeErrorModel { line: line as nat, msg: msg@ }),
{
    RuntimeError::new(line, String::from_str(msg))
}

/// Whether `a == b` holds by structure, for values that are not both numbers.
fn plain_eq<N: Numeric>(a: &Value<N>, b: &Value<N>) -> (r: bool)
    ensures
        r == plain_equal(a@, b@),
{
    match (a, b) {
        (Value::Nil, Value::Nil) => true,
        (Value::Bool(x), Value::Bool(y)) => *x == *y,
        (Value::String(x), Value::String(y)) => *x == *y,
        _ => false,
    }
}

fn unary_op<N: Numeric>(op: UnaryOperator, line: usize, v: Value<N>) -> (r: Result<Value<N>, RuntimeError>)
    ensures
        unary_result(op, line as nat, v@, outcome(r)),
{
    match op {
        UnaryOperator::Not => Ok(Value::Bool(!to_bool(&v))),
        UnaryOperator::Negative => match v {
            Value::Number(x) => Ok(Value::Number(x.neg())),
            _ => Err(error_at(line, "Expecting a number")),
        },
    }
}

fn binary_op<N: Numeric>(op: BinaryOperator, line: usize, a: Value<N>, b: Value<N>) -> (r: Result<
    Value<N>,
    RuntimeError,
>)
    ensures
        binary_result(op, line as nat, a@, b@, outcome(r)),
{
    match op {
        BinaryOperator::Add => match (a, b) {
            (Value::Number(x), Value::Number(y)) => Ok(Value::Number(x.add(y))),
            (Value::String(x), Value::String(y)) => Ok(Value::String(x.concat(y.as_str()))),
            (Value::Number(_), _) => Err(error_at(line, "Expecting a number")),
            (Value::String(_), _) => Err(error_at(line, "Expecting a string")),
            _ => Err(error_at(line, "Expecting a number or a string")),
        },
        BinaryOperator::Equal | BinaryOperator::NotEqual => {
            let same = match (&a, &b) {
                (Value::Number(x), Value::Number(y)) => x.equals(*y),
                _ => plain_eq(&a, &b),
            };
            if op == BinaryOperator::Equal {
                Ok(Value::Bool(same))
            } else {
                Ok(Value::Bool(!same))
            }
        },
        _ => match (a, b) {
            (Value::Number(x), Value::Number(y)) => match op {
                BinaryOperator::Sub => Ok(Value::Number(x.sub(y))),
                BinaryOperator::Mul => Ok(Value::Number(x.mul(y))),
                BinaryOperator::Div => Ok(Value::Number(x.div(y))),
                BinaryOperator::Less => Ok(Value::Bool(x.less(y))),
                BinaryOperator::LessEqual => Ok(Value::Bool(x.less_eq(y))),
                BinaryOperator::Greater => Ok(Value::Bool(y.less(x))),
                _ => Ok(Value::Bool(y.less_eq(x))),
            },
            _ => Err(error_at(line, "Expecting a number")),
        },
    }
}

/// Evaluates `expr` in `ctx`, with the record of how the evaluation went.
fn eval_recorded<N: Numeric>(expr: &Expr, ctx: &mut Environment<N>) -> (r: (
    Result<Value<N>, RuntimeError>,
    Ghost<Deriv<N>>,
))
    requires
        old(ctx).wf(),
    ensures
        final(ctx)@.len() == old(ctx)@.len(),
        valid(expr_model(expr), old(ctx)@, outcome(r.0), final(ctx)@, r.1@),
    decreases expr,
{
    match expr {
        Expr::Literal(_, literal) => {
            let v = match literal {
                Literal::Number(t) => Value::Number(N::from_literal(t.as_str())),
                Literal::String(s) => Value::String(s.clone()),
                Literal::True => Value::Bool(true),
                Literal::False => Value::Bool(false),
                Literal::Nil => Value::Nil,
            };
            (Ok(v), Ghost(Deriv::Leaf))
        },
        Expr::Variable(line, v) => match ctx.get(&v.0) {
            Some(val) => (Ok(val), Ghost(Deriv::Leaf)),
            None => {
                let mut msg = String::from_str("Undefined variable '");
                push_all(&mut msg, v.0.as_str());
                push_all(&mut msg, "'.");
                (Err(RuntimeError::new(*line, msg)), Ghost(Deriv::Leaf))
            },
        },
        Expr::Grouping(_, g) => eval_recorded(&g.0, ctx),
        Expr::Unary(line, u) => {
            let (val, Ghost(dv)) = eval_recorded(&u.expr, ctx);
            let ghost v = outcome(val);
            let ghost d = Deriv::Step(v, ctx@, Box::new(dv), v, Box::new(Deriv::Leaf));
            match val {
                Ok(x) => (unary_op(u.op, *line, x), Ghost(d)),
                Err(e) => (Err(e), Ghost(d)),
            }
        },
        Expr::Binary(line, b) => {
            let (left, Ghost(dl)) = eval_recorded(&b.left, ctx);
            let ghost mid = ctx@;
            let ghost lv = outcome(left);
            let a = match left {
                Ok(a) => a,
                Err(e) => {
                    let ghost d = Deriv::Step(lv, mid, Box::new(dl), lv, Box::new(Deriv::Leaf));
                    return (Err(e), Ghost(d));
                },
            };
            let (right, Ghost(dr)) = eval_recorded(&b.right, ctx);
            let ghost rv = outcome(right);
            let ghost d = Deriv::Step(lv, mid, Box::new(dl), rv, Box::new(dr));
            match right {
                Ok(c) => (binary_op(b.op, *line, a, c), Ghost(d)),
                Err(e) => (Err(e), Ghost(d)),
            }
        },
        Expr::Logical(_, l) => {
            let (left, Ghost(dl)) = eval_recorded(&l.left, ctx);
            let ghost mid = ctx@;
            let ghost lv = outcome(left);
            let a = match left {
                Ok(a) => a,
                Err(e) => {
                    let ghost d = Deriv::Step(lv, mid, Box::new(dl), lv, Box::new(Deriv::Leaf));
                    return (Err(e), Ghost(d));
                },
            };
            let settled = match l.op {
                LogicalOperator::And => !to_bool(&a),
                LogicalOperator::Or => to_bool(&a),
            };
            if settled {
                let ghost d = Deriv::Step(lv, mid, Box::new(dl), lv, Box::new(Deriv::Leaf));
                (Ok(a), Ghost(d))
            } else {
                let (right, Ghost(dr)) = eval_recorded(&l.right, ctx);
                let ghost d = Deriv::Step(lv, mid, Box::new(dl), outcome(right), Box::new(dr));
                (right, Ghost(d))
            }
        },
        Expr::Assign(line, a) => {
            let (val, Ghost(dv)) = eval_recorded(&a.rhs, ctx);
            let ghost v = outcome(val);
            let ghost d = Deriv::Step(v, ctx@, Box::new(dv), v, Box::new(Deriv::Leaf));
            let x = match val {
                Ok(x) => x,
                Err(e) => return (Err(e), Ghost(d)),
            };
            let stored = copy_value(&x);
            if ctx.set(&a.name, stored) {
                (Ok(x), Ghost(d))
            } else {
                let mut msg = String::from_str("Variable '");
                push_all(&mut msg, a.name.as_str());
                push_all(&mut msg, "' not declared before assignment");
                (Err(RuntimeError::new(*line, msg)), Ghost(d))
            }
        },
    }
}

/// Evaluates `expr` in `ctx`: the value, or the first runtime error.
pub fn evaluate<N: Numeric>(expr: &Expr, ctx: &mut Environment<N>) -> (r: Result<Value<N>, RuntimeError>)
    requires
        old(ctx).wf(),
    ensures
        final(ctx).wf(),
        final(ctx)@.len() == old(ctx)@.len(),
        evals(expr_model(expr), old(ctx)@, outcome(r), final(ctx)@),
{
    let ghost env0 = ctx@;
    let (r, Ghost(d)) = eval_recorded(expr, ctx);
    assert(valid(expr_model(expr), env0, outcome(r), ctx@, d));
    r
}


/// The display form of a value that is not a number: `nil`, `true`,
/// `false`, or a string's raw text.
pub open spec fn plain_text<N>(v: ValueModel<N>) -> Seq<char> {
    match v {
        ValueModel::Nil => "nil"@,
        ValueModel::Bool(b) => if b {
            "true"@
        } else {
            "false"@
        },
        ValueModel::Str(s) => s,
        ValueModel::Number(_) => Seq::empty(),
    }
}

/// Whether `text` may be the display form of `v`; a number's is the
/// arithmetic's own.
pub open spec fn shows<N>(v: ValueModel<N>, text: Seq<char>) -> bool {
    v is Number || text == plain_text(v)
}

impl<N: Numeric> Value<N> {
    /// The display form of this value.
    pub fn to_string(&self) -> (r: String)
        ensures
            shows(self@, r@),
    {
        match self {
            Value::Nil => String::from_str("nil"),
            Value::Bool(b) => if *b {
                String::from_str("true")
            } else {
                String::from_str("false")
            },
            Value::Number(n) => n.render(),
            Value::String(s) => s.clone(),
        }
    }
}

/// The outcome of running a statement.
pub type RunOutcome = Result<(), RuntimeErrorModel>;

/// The run outcome that ends with the evaluation outcome `v`.
pub open spec fn after<N>(v: Outcome<N>) -> RunOutcome {
    match v {
        Ok(_) => Ok(()),
        Err(e) => Err(e),
    }
}

/// The record of how running statements went.
pub enum StmtDeriv<N> {
    Leaf,
    /// An expression evaluated first (its outcome, the environment after it
    /// and its record), then the record of the statement run after it.
    Eval(Outcome<N>, EnvModel<N>, Deriv<N>, Box<StmtDeriv<N>>),
    /// The environment that a block's statements leave, and their record.
    Block(EnvModel<N>, Box<StmtDeriv<N>>),
    /// A sequence: the record of all but the last statement, with its
    /// outcome, lines printed and environment, then the last one's record.
    Sequence(Box<StmtDeriv<N>>, RunOutcome, Seq<Seq<char>>, EnvModel<N>, Box<StmtDeriv<N>>),
}

/// Whether `d` records a run of `s` in `env` that ends with `res`, prints
/// the lines `printed` and leaves `env2`.
pub open spec fn runs<N>(
    s: StmtModel,
    env: EnvModel<N>,
    res: RunOutcome,
    printed: Seq<Seq<char>>,
    env2: EnvModel<N>,
    d: StmtDeriv<N>,
) -> bool
    decreases s, 1int,
{
    match s {
        StmtModel::Expr(e) => match d {
            StmtDeriv::Eval(v, mid, de, _) => valid(e, env, v, mid, de) && env2 == mid && printed
                == Seq::<Seq<char>>::empty() && res == after(v),
            _ => false,
        },
        StmtModel::Print(e) => match d {
            StmtDeriv::Eval(v, mid, de, _) => valid(e, env, v, mid, de) && env2 == mid && res
                == after(v) && match v {
                Ok(x) => printed.len() == 1 && shows(x, printed[0]),
                Err(_) => printed == Seq::<Seq<char>>::empty(),
            },
            _ => false,
        },
        StmtModel::Var(name, init) => match init {
            None => res == Ok::<(), RuntimeErrorModel>(()) && printed == Seq::<Seq<char>>::empty()
                && env2 == env_declare(env, name, ValueModel::Nil),
            Some(e) => match d {
                StmtDeriv::Eval(v, mid, de, _) => valid(e, env, v, mid, de) && printed
                    == Seq::<Seq<char>>::empty() && res == after(v) && match v {
                    Ok(x) => env2 == env_declare(mid, name, x),
                    Err(_) => env2 == mid,
                },
                _ => false,
            },
        },
        StmtModel::If(c, t, els) => match d {
            StmtDeriv::Eval(v, mid, de, ds) => valid(c, env, v, mid, de) && match v {
                Err(x) => res == after(v) && printed == Seq::<Seq<char>>::empty() && env2 == mid,
                Ok(x) => if truthy(x) {
                    runs(*t, mid, res, printed, env2, *ds)
                } else {
                    match els {
                        Some(e) => runs(*e, mid, res, printed, env2, *ds),
                        None => res == Ok::<(), RuntimeErrorModel>(()) && printed == Seq::<
                            Seq<char>,
                        >::empty() && env2 == mid,
                    }
                },
            },
            _ => false,
        },
        StmtModel::Block(body) => match d {
            StmtDeriv::Block(inner, ds) => runs_seq(
                body,
                body.len() as int,
                env.push(Map::empty()),
                res,
                printed,
                inner,
                *ds,
            ) && inner.len() >= 1 && env2 == inner.drop_last(),
            _ => false,
        },
    }
}

/// Whether `d` records a run of the first `n` statements of `ss` in order,
/// stopping at the first error.
pub open spec fn runs_seq<N>(
    ss: Seq<StmtModel>,
    n: int,
    env: EnvModel<N>,
    res: RunOutcome,
    printed: Seq<Seq<char>>,
    env2: EnvModel<N>,
    d: StmtDeriv<N>,
) -> bool
    decreases ss, 0int, n,
{
    if n <= 0 || n > ss.len() {
        res == Ok::<(), RuntimeErrorModel>(()) && printed == Seq::<Seq<char>>::empty() && env2
            == env
    } else {
        match d {
            StmtDeriv::Sequence(dp, r1, lines_before, e1, dl) => runs_seq(ss, n - 1, env, r1, lines_before, e1, *dp) && match r1 {
                Err(_) => res == r1 && printed == lines_before && env2 == e1,
                Ok(_) => lines_before.len() <= printed.len() && printed.take(lines_before.len() as int) == lines_before && runs(
                    ss[n - 1],
                    e1,
                    res,
                    printed.skip(lines_before.len() as int),
                    env2,
                    *dl,
                ),
            },
            _ => false,
        }
    }
}

/// Whether running `s` in `env` may end with `res`, print `printed` and
/// leave `env2`.
pub open spec fn executes<N>(
    s: StmtModel,
    env: EnvModel<N>,
    res: RunOutcome,
    printed: Seq<Seq<char>>,
    env2: EnvModel<N>,
) -> bool {
    exists|d: StmtDeriv<N>| #[trigger] runs(s, env, res, printed, env2, d)
}

/// Whether running the statements `ss` in order in `env` may end with
/// `res`, print `printed` and leave `env2`.
pub open spec fn executes_all<N>(
    ss: Seq<StmtModel>,
    env: EnvModel<N>,
    res: RunOutcome,
    printed: Seq<Seq<char>>,
    env2: EnvModel<N>,
) -> bool {
    exists|d: StmtDeriv<N>| #[trigger] runs_seq(ss, ss.len() as int, env, res, printed, env2, d)
}

/// The text of each line in `v`.
pub open spec fn lines_view(v: Seq<String>) -> Seq<Seq<char>> {
    v.map_values(|s: String| s@)
}

/// The run outcome that `r` stands for.
pub open spec fn run_outcome(r: Result<(), RuntimeError>) -> RunOutcome {
    match r {
        Ok(_) => Ok(()),
        Err(e) => Err(e@),
    }
}


/// Whether `out` grew from `out0` by the lines whose text is `printed`.
pub open spec fn printed_since(out0: Seq<String>, out: Seq<String>, printed: Seq<Seq<char>>) -> bool {
    &&& out0.len() <= out.len()
    &&& out.take(out0.len() as int) == out0
    &&& lines_view(out).skip(out0.len() as int) == printed
}

proof fn lemma_printed_chain(
    out0: Seq<String>,
    out1: Seq<String>,
    out2: Seq<String>,
    lines_before: Seq<Seq<char>>,
    lines_after: Seq<Seq<char>>,
)
    requires
        printed_since(out0, out1, lines_before),
        printed_since(out1, out2, lines_after),
    ensures
        printed_since(out0, out2, lines_before + lines_after),
        (lines_before + lines_after).take(lines_before.len() as int) == lines_before,
        (lines_before + lines_after).skip(lines_before.len() as int) == lines_after,
{
    assert(out2.take(out0.len() as int) =~= out1.take(out0.len() as int));
    assert(lines_view(out2).skip(out0.len() as int) =~= lines_before + lines_after);
    assert((lines_before + lines_after).take(lines_before.len() as int) =~= lines_before);
    assert((lines_before + lines_after).skip(lines_before.len() as int) =~= lines_after);
}

/// Runs `stmt` in `ctx`, appending the lines it prints to `out`, with the
/// record of how the run went.
fn run_recorded<N: Numeric>(stmt: &Stmt, ctx: &mut Environment<N>, out: &mut Vec<String>) -> (r: (
    Result<(), RuntimeError>,
    Ghost<StmtDeriv<N>>,
    Ghost<Seq<Seq<char>>>,
))
    requires
        old(ctx).wf(),
    ensures
        final(ctx)@.len() == old(ctx)@.len(),
        printed_since(old(out)@, final(out)@, r.2@),
        runs(stmt_model(stmt), old(ctx)@, run_outcome(r.0), r.2@, final(ctx)@, r.1@),
    decreases stmt, 1int,
{
    let ghost out0 = out@;
    let ghost none = Seq::<Seq<char>>::empty();
    proof {
        assert(printed_since(out0, out0, none)) by {
            assert(out0.take(out0.len() as int) =~= out0);
            assert(lines_view(out0).skip(out0.len() as int) =~= none);
        }
    }
    match stmt {
        Stmt::Print(e) => {
            let (val, Ghost(de)) = eval_recorded(e, ctx);
            let ghost d = StmtDeriv::Eval(outcome(val), ctx@, de, Box::new(StmtDeriv::Leaf));
            match val {
                Ok(x) => {
                    let line = x.to_string();
                    let ghost text = line@;
                    let ghost printed_line = seq![text];
                    assert(shows(x@, text));
                    out.push(line);
                    proof {
                        let p = seq![text];
                        assert(out@.take(out0.len() as int) =~= out0);
                        assert(lines_view(out@).skip(out0.len() as int) =~= p);
                        assert(printed_since(out0, out@, p));
                    }
                    (Ok(()), Ghost(d), Ghost(printed_line))
                },
                Err(err) => (Err(err), Ghost(d), Ghost(none)),
            }
        },
        Stmt::Expr(e) => {
            let (val, Ghost(de)) = eval_recorded(e, ctx);
            let ghost d = StmtDeriv::Eval(outcome(val), ctx@, de, Box::new(StmtDeriv::Leaf));
            match val {
                Ok(_) => (Ok(()), Ghost(d), Ghost(none)),
                Err(err) => (Err(err), Ghost(d), Ghost(none)),
            }
        },
        Stmt::Var { name, initializer } => match initializer {
            None => {
                ctx.declare(name, Value::Nil);
                (Ok(()), Ghost(StmtDeriv::Leaf), Ghost(none))
            },
            Some(e) => {
                let (val, Ghost(de)) = eval_recorded(e, ctx);
                let ghost d = StmtDeriv::Eval(outcome(val), ctx@, de, Box::new(StmtDeriv::Leaf));
                match val {
                    Ok(x) => {
                        ctx.declare(name, x);
                        (Ok(()), Ghost(d), Ghost(none))
                    },
                    Err(err) => (Err(err), Ghost(d), Ghost(none)),
                }
            },
        },
        Stmt::IfStmt { condition, then_branch, else_branch } => {
            let (val, Ghost(de)) = eval_recorded(condition, ctx);
            let ghost mid = ctx@;
            let ghost v = outcome(val);
            let x = match val {
                Ok(x) => x,
                Err(err) => {
                    let ghost d = StmtDeriv::Eval(v, mid, de, Box::new(StmtDeriv::Leaf));
                    return (Err(err), Ghost(d), Ghost(none));
                },
            };
            if to_bool(&x) {
                let (r, Ghost(ds), Ghost(p)) = run_recorded(then_branch, ctx, out);
                (r, Ghost(StmtDeriv::Eval(v, mid, de, Box::new(ds))), Ghost(p))
            } else {
                match else_branch {
                    Some(b) => {
                        let (r, Ghost(ds), Ghost(p)) = run_recorded(b, ctx, out);
                        (r, Ghost(StmtDeriv::Eval(v, mid, de, Box::new(ds))), Ghost(p))
                    },
                    None => (
                        Ok(()),
                        Ghost(StmtDeriv::Eval(v, mid, de, Box::new(StmtDeriv::Leaf))),
                        Ghost(none),
                    ),
                }
            }
        },
        Stmt::Block(body) => {
            proof {
                lemma_stmts_model_index(body, body@.len() as int);
            }
            ctx.push();
            let (r, Ghost(ds), Ghost(p)) = run_all(body, ctx, out);
            let ghost inner = ctx@;
            ctx.pop();
            (r, Ghost(StmtDeriv::Block(inner, Box::new(ds))), Ghost(p))
        },
    }
}

/// A record of the first `m` statements of `ss` from one of the first `n`,
/// where the run stopped at an error.
proof fn stopped_at<N>(
    ss: Seq<StmtModel>,
    n: int,
    m: int,
    env: EnvModel<N>,
    res: RunOutcome,
    printed: Seq<Seq<char>>,
    env2: EnvModel<N>,
    d: StmtDeriv<N>,
) -> (r: StmtDeriv<N>)
    requires
        0 <= n <= m <= ss.len(),
        res is Err,
        runs_seq(ss, n, env, res, printed, env2, d),
    ensures
        runs_seq(ss, m, env, res, printed, env2, r),
    decreases m - n,
{
    if n == m {
        d
    } else {
        let next = StmtDeriv::Sequence(Box::new(d), res, printed, env2, Box::new(StmtDeriv::Leaf));
        assert(runs_seq(ss, n + 1, env, res, printed, env2, next));
        stopped_at(ss, n + 1, m, env, res, printed, env2, next)
    }
}

/// Runs the statements of `body` in order in `ctx`, appending the lines
/// they print to `out` and stopping at the first error, with the record of
/// how the run went.
fn run_all<N: Numeric>(body: &Vec<Stmt>, ctx: &mut Environment<N>, out: &mut Vec<String>) -> (r: (
    Result<(), RuntimeError>,
    Ghost<StmtDeriv<N>>,
    Ghost<Seq<Seq<char>>>,
))
    requires
        old(ctx).wf(),
    ensures
        final(ctx)@.len() == old(ctx)@.len(),
        printed_since(old(out)@, final(out)@, r.2@),
        runs_seq(
            stmts_model(body, body@.len() as int),
            body@.len() as int,
            old(ctx)@,
            run_outcome(r.0),
            r.2@,
            final(ctx)@,
            r.1@,
        ),
    decreases body, 0int,
{
    let ghost ss = stmts_model(body, body@.len() as int);
    let ghost env0 = ctx@;
    let ghost out0 = out@;
    proof {
        lemma_stmts_model_index(body, body@.len() as int);
        assert(out0.take(out0.len() as int) =~= out0);
        assert(lines_view(out0).skip(out0.len() as int) =~= Seq::<Seq<char>>::empty());
    }
    let ghost mut d = StmtDeriv::Leaf;
    let ghost mut printed = Seq::<Seq<char>>::empty();
    let mut i: usize = 0;
    while i < body.len()
        invariant
            i <= body@.len(),
            ss == stmts_model(body, body@.len() as int),
            ss.len() == body@.len(),
            forall|j: int| 0 <= j < body@.len() ==> #[trigger] ss[j] == stmt_model(&body@[j]),
            ctx.wf(),
            env0 == old(ctx)@,
            out0 == old(out)@,
            ctx@.len() == env0.len(),
            printed_since(out0, out@, printed),
            runs_seq(ss, i as int, env0, Ok::<(), RuntimeErrorModel>(()), printed, ctx@, d),
        decreases body@.len() - i,
    {
        let ghost e1 = ctx@;
        let ghost out1 = out@;
        let (r, Ghost(dl), Ghost(lines_after)) = run_recorded(&body[i], ctx, out);
        proof {
            lemma_printed_chain(out0, out1, out@, printed, lines_after);
        }
        let ghost next = StmtDeriv::Sequence(
            Box::new(d),
            Ok::<(), RuntimeErrorModel>(()),
            printed,
            e1,
            Box::new(dl),
        );
        proof {
            assert(runs_seq(ss, i + 1, env0, run_outcome(r), printed + lines_after, ctx@, next));
        }
        match r {
            Ok(()) => {},
            Err(e) => {
                let ghost done = stopped_at(
                    ss,
                    i + 1,
                    body@.len() as int,
                    env0,
                    Err::<(), RuntimeErrorModel>(e@),
                    printed + lines_after,
                    ctx@,
                    next,
                );
                return (Err(e), Ghost(done), Ghost(printed + lines_after));
            },
        }
        proof {
            d = next;
            printed = printed + lines_after;
        }
        i += 1;
    }
    (Ok(()), Ghost(d), Ghost(printed))
}


/// Runs `stmt` in `ctx`, appending the lines that it prints to `out`.
pub fn interpret_stmt<N: Numeric>(stmt: &Stmt, ctx: &mut Environment<N>, out: &mut Vec<String>) -> (r:
    Result<(), RuntimeError>)
    requires
        old(ctx).wf(),
    ensures
        final(ctx).wf(),
        final(ctx)@.len() == old(ctx)@.len(),
        old(out)@.len() <= final(out)@.len(),
        final(out)@.take(old(out)@.len() as int) == old(out)@,
        executes(
            stmt_model(stmt),
            old(ctx)@,
            run_outcome(r),
            lines_view(final(out)@).skip(old(out)@.len() as int),
            final(ctx)@,
        ),
{
    let ghost env0 = ctx@;
    let (r, Ghost(d), Ghost(printed)) = run_recorded(stmt, ctx, out);
    assert(runs(stmt_model(stmt), env0, run_outcome(r), printed, ctx@, d));
    r
}

/// Runs `program` in a fresh environment, appending the lines that it
/// prints to `out`; stops at the first runtime error.
pub fn interpret_program<N: Numeric>(program: &Program, out: &mut Vec<String>) -> (r: Result<
    (),
    RuntimeError,
>)
    ensures
        old(out)@.len() <= final(out)@.len(),
        final(out)@.take(old(out)@.len() as int) == old(out)@,
        exists|env2: EnvModel<N>|
            executes_all(
                stmts_model(&program.stmts, program.stmts@.len() as int),
                seq![Map::<Seq<char>, ValueModel<N>>::empty()],
                run_outcome(r),
                lines_view(final(out)@).skip(old(out)@.len() as int),
                env2,
            ),
{
    let mut ctx: Environment<N> = Environment::new();
    let ghost env0 = ctx@;
    let (r, Ghost(d), Ghost(printed)) = run_all(&program.stmts, &mut ctx, out);
    proof {
        lemma_stmts_model_index(&program.stmts, program.stmts@.len() as int);
        assert(runs_seq(
            stmts_model(&program.stmts, program.stmts@.len() as int),
            program.stmts@.len() as int,
            env0,
            run_outcome(r),
            printed,
            ctx@,
            d,
        ));
        assert(executes_all(
            stmts_model(&program.stmts, program.stmts@.len() as int),
            env0,
            run_outcome(r),
            printed,
            ctx@,
        ));
    }
    r
}

impl<N: Numeric> Default for Environment<N> {
    fn default() -> (r: Self)
        ensures
            r@ == seq![Map::<Seq<char>, ValueModel<N>>::empty()],
    {
        Self::new()
    }
}


/// `nil and e` is `nil` for every `e`, and leaves the environment as it
/// was: the right operand is never evaluated, so no error of it surfaces.
pub proof fn nil_and_skips_right_operand<N>(
    line: nat,
    nil_line: nat,
    right: ExprModel,
    env: EnvModel<N>,
    out: Outcome<N>,
    env2: EnvModel<N>,
)
    requires
        evals(
            ExprModel::Logical(
                line,
                Box::new(ExprModel::Literal(nil_line, LitModel::Nil)),
                LogicalOperator::And,
                Box::new(right),
            ),
            env,
            out,
            env2,
        ),
    ensures
        out == Ok::<ValueModel<N>, RuntimeErrorModel>(ValueModel::Nil),
        env2 == env,
{
    let e = ExprModel::Logical(
        line,
        Box::new(ExprModel::Literal(nil_line, LitModel::Nil)),
        LogicalOperator::And,
        Box::new(right),
    );
    let d = choose|d: Deriv<N>| valid(e, env, out, env2, d);
    assert(valid(e, env, out, env2, d));
    match d {
        Deriv::Step(lv, mid, dl, _, _) => {
            assert(valid(ExprModel::Literal(nil_line, LitModel::Nil), env, lv, mid, *dl));
            assert(lv == Ok::<ValueModel<N>, RuntimeErrorModel>(ValueModel::Nil));
        },
        Deriv::Leaf => {},
    }
}


proof fn lemma_unbound_has_no_scope<N>(env: EnvModel<N>, name: Seq<char>, n: int)
    requires
        lookup_in(env, name, n) is None,
    ensures
        binding_scope(env, name, n) is None,
    decreases n,
{
    if 0 < n <= env.len() {
        lemma_unbound_has_no_scope(env, name, n - 1);
    }
}

/// Assigning a literal to a name that no scope binds fails with "Variable
/// '<name>' not declared before assignment" at the assignment's line, and
/// leaves the environment as it was.
pub proof fn assigning_unbound_name_fails<N>(
    line: nat,
    name: Seq<char>,
    lit_line: nat,
    lit: LitModel,
    env: EnvModel<N>,
    out: Outcome<N>,
    env2: EnvModel<N>,
)
    requires
        env_lookup(env, name) is None,
        evals(
            ExprModel::Assign(line, name, Box::new(ExprModel::Literal(lit_line, lit))),
            env,
            out,
            env2,
        ),
    ensures
        out == fail::<N>(line, undeclared_message(name)),
        env2 == env,
{
    let e = ExprModel::Assign(line, name, Box::new(ExprModel::Literal(lit_line, lit)));
    let d = choose|d: Deriv<N>| valid(e, env, out, env2, d);
    assert(valid(e, env, out, env2, d));
    lemma_unbound_has_no_scope(env, name, env.len() as int);
    match d {
        Deriv::Step(v, mid, dv, _, _) => {
            assert(valid(ExprModel::Literal(lit_line, lit), env, v, mid, *dv));
            assert(mid == env);
            assert(v is Ok);
        },
        Deriv::Leaf => {},
    }
}


/// `n + "s"`, a number literal plus a string literal, fails with "Expecting
/// a number" at the line of `+`; `"s" + "t"` is the string `st`.
pub proof fn adding_literals<N>(
    line: nat,
    left_line: nat,
    right_line: nat,
    left: LitModel,
    right: LitModel,
    env: EnvModel<N>,
    out: Outcome<N>,
    env2: EnvModel<N>,
)
    requires
        evals(
            ExprModel::Binary(
                line,
                Box::new(ExprModel::Literal(left_line, left)),
                BinaryOperator::Add,
                Box::new(ExprModel::Literal(right_line, right)),
            ),
            env,
            out,
            env2,
        ),
    ensures
        env2 == env,
        left is Number && right is Str ==> out == fail::<N>(line, "Expecting a number"@),
        left is Str && right is Str ==> out == Ok::<ValueModel<N>, RuntimeErrorModel>(
            ValueModel::Str(left->Str_0 + right->Str_0),
        ),
{
    let e = ExprModel::Binary(
        line,
        Box::new(ExprModel::Literal(left_line, left)),
        BinaryOperator::Add,
        Box::new(ExprModel::Literal(right_line, right)),
    );
    let d = choose|d: Deriv<N>| valid(e, env, out, env2, d);
    assert(valid(e, env, out, env2, d));
    match d {
        Deriv::Step(lv, mid, dl, rv, dr) => {
            assert(valid(ExprModel::Literal(left_line, left), env, lv, mid, *dl));
            assert(valid(ExprModel::Literal(right_line, right), mid, rv, env2, *dr));
        },
        Deriv::Leaf => {},
    }
}


/// A block that declares a name, `{ var name = literal; }`, leaves the
/// environment as it was: the declaration goes to the block's own scope,
/// which ends with the block, so it hides no outer binding afterwards.
pub proof fn block_declaration_does_not_leak<N>(
    name: Seq<char>,
    lit_line: nat,
    lit: LitModel,
    env: EnvModel<N>,
    res: RunOutcome,
    printed: Seq<Seq<char>>,
    env2: EnvModel<N>,
)
    requires
        executes(
            StmtModel::Block(
                seq![StmtModel::Var(name, Some(ExprModel::Literal(lit_line, lit)))],
            ),
            env,
            res,
            printed,
            env2,
        ),
    ensures
        env2 == env,
        res == Ok::<(), RuntimeErrorModel>(()),
        printed.len() == 0,
{
    let body = seq![StmtModel::Var(name, Some(ExprModel::Literal(lit_line, lit)))];
    let s = StmtModel::Block(body);
    let d = choose|d: StmtDeriv<N>| runs(s, env, res, printed, env2, d);
    assert(runs(s, env, res, printed, env2, d));
    let pushed = env.push(Map::empty());
    match d {
        StmtDeriv::Block(inner, ds) => {
            assert(runs_seq(body, 1, pushed, res, printed, inner, *ds));
            match *ds {
                StmtDeriv::Sequence(dp, r1, before, e1, dl) => {
                    assert(runs_seq(body, 0, pushed, r1, before, e1, *dp));
                    assert(printed.skip(0) =~= printed);
                    assert(runs(body[0], e1, res, printed, inner, *dl));
                    match *dl {
                        StmtDeriv::Eval(v, mid, de, _) => {
                            assert(valid(ExprModel::Literal(lit_line, lit), e1, v, mid, de));
                            assert(inner.drop_last() =~= env);
                        },
                        _ => {},
                    }
                },
                _ => {},
            }
        },
        _ => {},
    }
}


/// `if (false) a else b` runs `b` alone: whatever the run ends with, prints
/// and leaves is what running `b` by itself may end with, print and leave.
pub proof fn false_condition_runs_else_branch<N>(
    cond_line: nat,
    then_branch: StmtModel,
    else_branch: StmtModel,
    env: EnvModel<N>,
    res: RunOutcome,
    printed: Seq<Seq<char>>,
    env2: EnvModel<N>,
)
    requires
        executes(
            StmtModel::If(
                ExprModel::Literal(cond_line, LitModel::False),
                Box::new(then_branch),
                Some(Box::new(else_branch)),
            ),
            env,
            res,
            printed,
            env2,
        ),
    ensures
        executes(else_branch, env, res, printed, env2),
{
    let s = StmtModel::If(
        ExprModel::Literal(cond_line, LitModel::False),
        Box::new(then_branch),
        Some(Box::new(else_branch)),
    );
    let d = choose|d: StmtDeriv<N>| runs(s, env, res, printed, env2, d);
    assert(runs(s, env, res, printed, env2, d));
    match d {
        StmtDeriv::Eval(v, mid, de, ds) => {
            assert(valid(ExprModel::Literal(cond_line, LitModel::False), env, v, mid, de));
            assert(runs(else_branch, env, res, printed, env2, *ds));
        },
        _ => {},
    }
}

} // verus!
