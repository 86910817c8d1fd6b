use vstd::prelude::*;
use crate::environment::{
    defining_m, lemma_put, lookup_in, resolve_m, set_m, Environment, SScope,
};
use crate::function::{Clock, LoxCallable, LoxFunction};
use crate::lexer::{error_texts, error_count, return_tokens, scan_of, spans, token_spans, Literal, Token, TokenType};
use crate::grammar::{fits_stmts_from, parse_program, StmtShape};
use crate::number::Numbers;
use crate::parse::{copy_tokens, Expr, Parser, Stmt};
use crate::text::{chars_of, concat, decimal, owned, usize_to_string, views};

verus! {

/// A callable value: the native clock, or a declared function by its index among the
/// interpreter's functions.
#[derive(Clone, Copy, PartialEq, Eq, Debug, Structural)]
pub enum Callable {
    Native(Clock),
    User(usize),
}

/// A runtime value. A number is the bit pattern of an IEEE-754 double.
#[derive(Debug)]
pub enum Value {
    Number(u64),
    String(String),
    Boolean(bool),
    Nil,
    Function(Callable),
}

impl Value {
    /// A copy of the value.
    pub fn copy(&self) -> (r: Value)
        ensures
            r == *self,
    {
        match self {
            Value::Number(n) => Value::Number(*n),
            Value::String(s) => Value::String(s.clone()),
            Value::Boolean(b) => Value::Boolean(*b),
            Value::Nil => Value::Nil,
            Value::Function(f) => Value::Function(*f),
        }
    }
}

/// The value carried by a `return` on its way out to the call.
pub struct Return {
    pub value: Value,
}

/// A runtime error: its message, and the token and line at which it arose.
#[derive(Debug)]
pub struct Error {
    pub message: String,
    pub token: Token,
    pub line: usize,
}

/// How the execution of a statement ends early: an error, or a `return` unwinding to its call.
pub enum RuntimeError {
    Error { message: String, line: usize, token: Token },
    Return(Return),
}

/// A runtime error with `message`, at `token`.
pub fn runtime_error(token: &Token, message: String) -> (r: RuntimeError)
    ensures
        r == (RuntimeError::Error { message, line: token.line, token: *token }),
{
    RuntimeError::Error { message, line: token.line, token: token.copy() }
}

/// A runtime value as contracts see it: a string by its characters.
pub enum Val {
    Number(u64),
    Str(Seq<char>),
    Boolean(bool),
    Nil,
    Function(Callable),
}

impl Value {
    pub open spec fn val(self) -> Val {
        match self {
            Value::Number(n) => Val::Number(n),
            Value::String(s) => Val::Str(s@),
            Value::Boolean(b) => Val::Boolean(b),
            Value::Nil => Val::Nil,
            Value::Function(f) => Val::Function(f),
        }
    }
}

/// What evaluating an expression comes to: a value, or a runtime error at a token.
pub enum Outcome {
    Value(Val),
    Error(Token, Seq<char>),
    /// The budget of steps is spent.
    Limit,
}

/// `r` is the outcome `o`.
pub open spec fn outcome_is(r: Result<Value, RuntimeError>, o: Outcome) -> bool {
    match o {
        Outcome::Value(v) => r matches Ok(x) && x.val() == v,
        Outcome::Error(t, m) => error_at(r, t, m),
        Outcome::Limit => r matches Err(RuntimeError::Error { message, line, .. }) && message@
            == "Step limit reached."@ && line == 0,
    }
}

/// `r` is how a statement ended, as `f` describes it.
pub open spec fn flow_is(r: Result<(), RuntimeError>, f: Flow) -> bool {
    match f {
        Flow::Normal => r is Ok,
        Flow::Error(t, m) => failed_at(r, t, m),
        Flow::Return(v) => r matches Err(RuntimeError::Return(ret)) && ret.value.val() == v,
        Flow::Limit => r matches Err(RuntimeError::Error { message, line, .. }) && message@
            == "Step limit reached."@ && line == 0,
    }
}

/// The values of a list, as contracts see them.
pub open spec fn vals(v: Seq<Value>) -> Seq<Val> {
    v.map_values(|x: Value| x.val())
}

/// `r` is the argument values `res` describes, or the outcome that stopped them.
pub open spec fn args_are(r: Result<Vec<Value>, RuntimeError>, res: Result<Seq<Val>, Outcome>) -> bool {
    match res {
        Ok(vs) => r matches Ok(values) && vals(values@) == vs,
        Err(Outcome::Error(t, m)) => r matches Err(RuntimeError::Error { message, line, token })
            && message@ == m && line == t.line && token == t,
        Err(Outcome::Limit) => r matches Err(RuntimeError::Error { message, line, .. }) && message@
            == "Step limit reached."@ && line == 0,
        Err(Outcome::Value(_)) => false,
    }
}

/// `r` is the runtime error `message` at `t`.
pub open spec fn failed_at(r: Result<(), RuntimeError>, t: Token, message: Seq<char>) -> bool {
    r matches Err(RuntimeError::Error { message: m, line, token }) && m@ == message && line
        == t.line && token == t
}

pub open spec fn truthy_val(v: Val) -> bool {
    match v {
        Val::Nil => false,
        Val::Boolean(b) => b,
        _ => true,
    }
}

/// `==` on values: numbers by `numbers`, strings and booleans by value, `nil` equal to
/// `nil`, anything else unequal.
pub open spec fn same_val<N: Numbers>(numbers: N, a: Val, b: Val) -> bool {
    match (a, b) {
        (Val::Number(x), Val::Number(y)) => numbers.near_of(x, y),
        (Val::Nil, Val::Nil) => true,
        (Val::Boolean(x), Val::Boolean(y)) => x == y,
        (Val::Str(x), Val::Str(y)) => x == y,
        _ => false,
    }
}

/// The value of a literal.
pub open spec fn literal_val<N: Numbers>(numbers: N, l: Literal) -> Val {
    match l {
        Literal::Number(s) => Val::Number(numbers.numeral_of(s)),
        Literal::String(s) => Val::Str(s@),
        Literal::Boolean(b) => Val::Boolean(b),
        _ => Val::Nil,
    }
}

/// A unary operator applied to a value.
pub open spec fn unary_val<N: Numbers>(numbers: N, op: Token, v: Val) -> Outcome {
    if op.token_type == TokenType::BANG {
        Outcome::Value(Val::Boolean(!truthy_val(v)))
    } else if op.token_type == TokenType::MINUS {
        match v {
            Val::Number(x) => Outcome::Value(Val::Number(numbers.neg_of(x))),
            _ => Outcome::Error(op, "Operand must be a number."@),
        }
    } else {
        Outcome::Error(op, "Invalid unary operator."@)
    }
}

/// A binary operator applied to two values.
pub open spec fn binary_val<N: Numbers>(numbers: N, op: Token, l: Val, r: Val) -> Outcome {
    let k = op.token_type;
    if k == TokenType::EQUAL_EQUAL {
        Outcome::Value(Val::Boolean(same_val(numbers, l, r)))
    } else if k == TokenType::BANG_EQUAL {
        Outcome::Value(Val::Boolean(!same_val(numbers, l, r)))
    } else if k == TokenType::PLUS {
        match (l, r) {
            (Val::Number(a), Val::Number(b)) => Outcome::Value(Val::Number(numbers.sum_of(a, b))),
            (Val::Str(a), Val::Str(b)) => Outcome::Value(Val::Str(a + b)),
            _ => Outcome::Error(op, "Operands must be two numbers or two strings."@),
        }
    } else {
        match (l, r) {
            (Val::Number(a), Val::Number(b)) => if k == TokenType::MINUS {
                Outcome::Value(Val::Number(numbers.difference_of(a, b)))
            } else if k == TokenType::SLASH {
                Outcome::Value(Val::Number(numbers.quotient_of(a, b)))
            } else if k == TokenType::STAR {
                Outcome::Value(Val::Number(numbers.product_of(a, b)))
            } else if k == TokenType::GREATER {
                Outcome::Value(Val::Boolean(numbers.less_of(b, a)))
            } else if k == TokenType::GREATER_EQUAL {
                Outcome::Value(Val::Boolean(numbers.less_equal_of(b, a)))
            } else if k == TokenType::LESS {
                Outcome::Value(Val::Boolean(numbers.less_of(a, b)))
            } else if k == TokenType::LESS_EQUAL {
                Outcome::Value(Val::Boolean(numbers.less_equal_of(a, b)))
            } else {
                Outcome::Error(op, "Invalid binary operator."@)
            },
            _ => if numeric_operator(k) {
                Outcome::Error(op, "Operands must be numbers."@)
            } else {
                Outcome::Error(op, "Invalid binary operator."@)
            },
        }
    }
}

/// The outcome of evaluating `e` in scope `at` of `envs`, for an expression whose evaluation
/// reaches no call and no assignment; `None` for the others. Operands are evaluated left to
/// right, the first error ends the evaluation, and `and` / `or` evaluate their right operand
/// only when the left one does not decide.
pub open spec fn eval_pure<N: Numbers>(numbers: N, envs: Environment, at: nat, e: Expr) -> Option<
    Outcome,
>
    decreases e,
{
    match e {
        Expr::Literal { value } => Some(Outcome::Value(literal_val(numbers, value))),
        Expr::Grouping { expression } => eval_pure(numbers, envs, at, *expression),
        Expr::Unary { operator, right } => match eval_pure(numbers, envs, at, *right) {
            Some(Outcome::Value(v)) => Some(unary_val(numbers, operator, v)),
            other => other,
        },
        Expr::Variable { name } => match envs.resolve(at, name.lexeme@) {
            Some(v) => Some(Outcome::Value(v.val())),
            None => Some(
                Outcome::Error(name, crate::environment::undefined_message(name.lexeme@)),
            ),
        },
        Expr::Binary { left, operator, right } => match eval_pure(numbers, envs, at, *left) {
            Some(Outcome::Value(a)) => match eval_pure(numbers, envs, at, *right) {
                Some(Outcome::Value(b)) => Some(binary_val(numbers, operator, a, b)),
                other => other,
            },
            other => other,
        },
        Expr::Logical { left, operator, right } => match eval_pure(numbers, envs, at, *left) {
            Some(Outcome::Value(a)) => if (operator.token_type == TokenType::OR) == truthy_val(a) {
                Some(Outcome::Value(a))
            } else {
                eval_pure(numbers, envs, at, *right)
            },
            other => other,
        },
        Expr::Null => Some(Outcome::Value(Val::Nil)),
        _ => None,
    }
}

/// The values of `args[k..]`, evaluated left to right, where none reaches a call or an
/// assignment: the values, or the first error.
pub open spec fn eval_pure_args<N: Numbers>(
    numbers: N,
    envs: Environment,
    at: nat,
    args: Seq<Expr>,
    k: int,
) -> Option<Result<Seq<Val>, (Token, Seq<char>)>>
    decreases args.len() - k,
{
    if k < 0 || k >= args.len() {
        Some(Ok(Seq::empty()))
    } else {
        match eval_pure(numbers, envs, at, args[k]) {
            Some(Outcome::Value(v)) => match eval_pure_args(numbers, envs, at, args, k + 1) {
                Some(Ok(vs)) => Some(Ok(seq![v] + vs)),
                other => other,
            },
            Some(Outcome::Error(t, m)) => Some(Err((t, m))),
            _ => None,
        }
    }
}

/// Arguments whose values `eval_pure_args` gives each have the value at their place.
pub proof fn lemma_pure_args<N: Numbers>(
    numbers: N,
    envs: Environment,
    at: nat,
    args: Seq<Expr>,
    k: int,
)
    requires
        0 <= k <= args.len(),
        eval_pure_args(numbers, envs, at, args, k) is Some,
        eval_pure_args(numbers, envs, at, args, k)->0 is Ok,
    ensures
        ({
            let vs = eval_pure_args(numbers, envs, at, args, k)->0->Ok_0;
            &&& vs.len() == args.len() - k
            &&& forall|j: int|
                0 <= j < vs.len() ==> eval_pure(numbers, envs, at, #[trigger] args[k + j]) == Some(
                    Outcome::Value(vs[j]),
                )
        }),
    decreases args.len() - k,
{
    if k < args.len() {
        lemma_pure_args(numbers, envs, at, args, k + 1);
        let vs = eval_pure_args(numbers, envs, at, args, k)->0->Ok_0;
        let rest = eval_pure_args(numbers, envs, at, args, k + 1)->0->Ok_0;
        assert forall|j: int| 0 <= j < vs.len() implies eval_pure(numbers, envs, at, #[trigger] args[k + j]) == Some(
            Outcome::Value(vs[j]),
        ) by {
            if j > 0 {
                assert(args[k + j] == args[(k + 1) + (j - 1)]);
            }
        }
    }
}

/// The text `print` writes for a value.
pub open spec fn display<N: Numbers>(numbers: N, functions: Seq<SFun>, v: Val) -> Seq<char> {
    match v {
        Val::Number(x) => numbers.text_of(x)@,
        Val::Str(s) => s,
        Val::Boolean(b) => if b {
            "true"@
        } else {
            "false"@
        },
        Val::Nil => "nil"@,
        Val::Function(Callable::Native(_)) => "<native fn>"@,
        Val::Function(Callable::User(i)) => if i < functions.len() {
            "<fn "@ + functions[i as int].name + ">"@
        } else {
            "<fn>"@
        },
    }
}

/// The interpreter's state as contracts see it: the scopes, the printed lines, the steps
/// left and the current scope.
pub struct Machine {
    pub envs: Seq<SScope>,
    pub functions: Seq<SFun>,
    pub output: Seq<Seq<char>>,
    pub steps: nat,
    pub at: nat,
}

/// A declared function as the machine model sees it.
pub struct SFun {
    pub name: Seq<char>,
    pub params: Seq<Seq<char>>,
    pub body: Seq<Stmt>,
    pub closure: nat,
}

impl<'a> LoxFunction<'a> {
    pub open spec fn model(self) -> SFun {
        SFun {
            name: self.name.lexeme@,
            params: self.parameter@.map_values(|t: Token| t.lexeme@),
            body: self.body@,
            closure: self.closure as nat,
        }
    }
}

/// How running a statement ends: normally, with a runtime error at a token, with a `return`
/// carrying a value, or with the budget of steps spent.
pub enum Flow {
    Normal,
    Error(Token, Seq<char>),
    Return(Val),
    Limit,
}

pub open spec fn with_envs(m: Machine, envs: Seq<SScope>) -> Machine {
    Machine { envs, functions: m.functions, output: m.output, steps: m.steps, at: m.at }
}

pub open spec fn with_at(m: Machine, at: nat) -> Machine {
    Machine { envs: m.envs, functions: m.functions, output: m.output, steps: m.steps, at }
}

pub open spec fn with_output(m: Machine, line: Seq<char>) -> Machine {
    Machine { envs: m.envs, functions: m.functions, output: m.output.push(line), steps: m.steps, at: m.at }
}

/// Evaluating `e` on machine `m`: the machine after it and the outcome. Operands go left to
/// right, the first error ends the evaluation, and `and` / `or` evaluate their right operand
/// only when the left one does not decide. A call evaluates its callee, fails unless that is
/// a function, then evaluates the arguments left to right and calls (`call_m`). `None` only
/// where the evaluation reaches the native clock, whose reading no spec fixes.
pub open spec fn eval_m<N: Numbers>(numbers: N, m: Machine, e: Expr) -> Option<(Machine, Outcome)>
    decreases m.steps, 1int, e, 0int,
{
    match e {
        Expr::Literal { value } => Some((m, Outcome::Value(literal_val(numbers, value)))),
        Expr::Grouping { expression } => eval_m(numbers, m, *expression),
        Expr::Unary { operator, right } => match eval_m(numbers, m, *right) {
            Some((m1, Outcome::Value(v))) => Some((m1, unary_val(numbers, operator, v))),
            other => other,
        },
        Expr::Variable { name } => match resolve_m(m.envs, m.at, name.lexeme@) {
            Some(v) => Some((m, Outcome::Value(v))),
            None => Some(
                (m, Outcome::Error(name, crate::environment::undefined_message(name.lexeme@))),
            ),
        },
        Expr::Assign { name, value } => match eval_m(numbers, m, *value) {
            Some((m1, Outcome::Value(v))) => match defining_m(m1.envs, m1.at, name.lexeme@) {
                Some(s) => Some(
                    (with_envs(m1, set_m(m1.envs, s, name.lexeme@, v)), Outcome::Value(v)),
                ),
                None => Some(
                    (m1, Outcome::Error(name, crate::environment::undefined_message(name.lexeme@))),
                ),
            },
            other => other,
        },
        Expr::Binary { left, operator, right } => match eval_m(numbers, m, *left) {
            Some((m1, Outcome::Value(a))) => if m1.steps > m.steps {
                None
            } else {
                match eval_m(numbers, m1, *right) {
                    Some((m2, Outcome::Value(b))) => Some((m2, binary_val(numbers, operator, a, b))),
                    other => other,
                }
            },
            other => other,
        },
        Expr::Logical { left, operator, right } => match eval_m(numbers, m, *left) {
            Some((m1, Outcome::Value(a))) => if m1.steps > m.steps {
                None
            } else if (operator.token_type == TokenType::OR) == truthy_val(a) {
                Some((m1, Outcome::Value(a)))
            } else {
                eval_m(numbers, m1, *right)
            },
            other => other,
        },
        Expr::Null => Some((m, Outcome::Value(Val::Nil))),
        Expr::Call { callee, paren, arguments } => match eval_m(numbers, m, *callee) {
            Some((m1, Outcome::Value(f))) => if m1.steps > m.steps {
                None
            } else if !(f is Function) {
                Some((m1, Outcome::Error(paren, "Can only call functions and classes."@)))
            } else {
                match args_m(numbers, m1, arguments@, 0) {
                    Some((m2, Ok(vs))) => if m2.steps > m1.steps {
                        None
                    } else {
                        call_m(numbers, m2, f, paren, vs)
                    },
                    Some((m2, Err(o))) => Some((m2, o)),
                    None => None,
                }
            },
            other => other,
        },
    }
}

/// Evaluating the arguments `args[k..]` left to right: their values, or the outcome of the
/// first that does not give one.
pub open spec fn args_m<N: Numbers>(numbers: N, m: Machine, args: Seq<Expr>, k: int) -> Option<
    (Machine, Result<Seq<Val>, Outcome>),
>
    decreases m.steps, 1int, args, args.len() - k,
{
    if k < 0 || k >= args.len() {
        Some((m, Ok(Seq::empty())))
    } else {
        match eval_m(numbers, m, args[k]) {
            Some((m1, Outcome::Value(v))) => if m1.steps > m.steps {
                None
            } else {
                match args_m(numbers, m1, args, k + 1) {
                    Some((m2, Ok(vs))) => Some((m2, Ok(seq![v] + vs))),
                    other => other,
                }
            },
            Some((m1, o)) => Some((m1, Err(o))),
            None => None,
        }
    }
}

/// The scopes after binding `params[k..]` to `args[k..]` in scope `c`, in order.
pub open spec fn bind_m(envs: Seq<SScope>, c: nat, params: Seq<Seq<char>>, args: Seq<Val>, k: int) -> Seq<
    SScope,
>
    decreases params.len() - k,
{
    if k < 0 || k >= params.len() || k >= args.len() {
        envs
    } else {
        bind_m(set_m(envs, c, params[k], args[k]), c, params, args, k + 1)
    }
}

/// Calling `callee` on evaluated arguments, for a declared function: the arity check, one
/// step spent, a new scope enclosed by the function's captured scope that binds the
/// parameters to the arguments, the body run there; the result is the value a `return`
/// carries, or `nil`. The native clock reads the time, which no spec fixes: `None`.
pub open spec fn call_m<N: Numbers>(numbers: N, m: Machine, callee: Val, paren: Token, args: Seq<Val>) -> Option<
    (Machine, Outcome),
>
    decreases m.steps, 0int, paren, 0int,
{
    match callee {
        Val::Function(Callable::User(i)) => if i >= m.functions.len() {
            Some((m, Outcome::Error(paren, "Can only call functions and classes."@)))
        } else if args.len() != m.functions[i as int].params.len() {
            Some(
                (
                    m,
                    Outcome::Error(
                        paren,
                        arity_message(m.functions[i as int].params.len(), args.len()),
                    ),
                ),
            )
        } else if m.steps == 0 {
            Some((m, Outcome::Error(paren, "Step limit reached."@)))
        } else {
            let f = m.functions[i as int];
            let c = m.envs.len();
            let envs = bind_m(
                m.envs.push(SScope { enclosing: Some(f.closure as usize), values: Seq::empty() }),
                c,
                f.params,
                args,
                0,
            );
            let inner = Machine {
                envs,
                functions: m.functions,
                output: m.output,
                steps: (m.steps - 1) as nat,
                at: c,
            };
            match block_m(numbers, inner, f.body, 0) {
                Some((m2, flow)) => {
                    let back = with_at(m2, m.at);
                    match flow {
                        Flow::Normal => Some((back, Outcome::Value(Val::Nil))),
                        Flow::Return(v) => Some((back, Outcome::Value(v))),
                        Flow::Error(t, x) => Some((back, Outcome::Error(t, x))),
                        Flow::Limit => Some((back, Outcome::Limit)),
                    }
                },
                None => None,
            }
        },
        Val::Function(Callable::Native(_)) => if args.len() != 0 {
            Some((m, Outcome::Error(paren, arity_message(0, args.len()))))
        } else {
            None
        },
        _ => Some((m, Outcome::Error(paren, "Can only call functions and classes."@))),
    }
}

/// Running statement `s` on machine `m`: the machine after it and how it ended; `None` only
/// where the run reaches the native clock. A function declaration records the function with
/// the current scope as its closure and binds its name there.
pub open spec fn exec_m<N: Numbers>(numbers: N, m: Machine, s: Stmt) -> Option<
    (Machine, Flow),
>
    decreases m.steps, 2int, s, 0int,
{
    match s {
        Stmt::Expression(e) => match eval_m(numbers, m, e) {
            Some((m1, Outcome::Value(_))) => Some((m1, Flow::Normal)),
            Some((m1, Outcome::Error(t, x))) => Some((m1, Flow::Error(t, x))),
            Some((m1, Outcome::Limit)) => Some((m1, Flow::Limit)),
            None => None,
        },
        Stmt::Print(e) => match eval_m(numbers, m, e) {
            Some((m1, Outcome::Value(v))) => Some(
                (
                    with_output(m1, display(numbers, m1.functions, v)),
                    Flow::Normal,
                ),
            ),
            Some((m1, Outcome::Error(t, x))) => Some((m1, Flow::Error(t, x))),
            Some((m1, Outcome::Limit)) => Some((m1, Flow::Limit)),
            None => None,
        },
        Stmt::Var(name, init) => {
            let r = match init {
                Expr::Null => Some((m, Outcome::Value(Val::Nil))),
                _ => eval_m(numbers, m, init),
            };
            match r {
                Some((m1, Outcome::Value(v))) => Some(
                    (with_envs(m1, set_m(m1.envs, m1.at, name.lexeme@, v)), Flow::Normal),
                ),
                Some((m1, Outcome::Error(t, x))) => Some((m1, Flow::Error(t, x))),
            Some((m1, Outcome::Limit)) => Some((m1, Flow::Limit)),
                None => None,
            }
        },
        Stmt::Block(v) => {
            let inner = Machine {
                envs: m.envs.push(SScope { enclosing: Some(m.at as usize), values: Seq::empty() }),
                functions: m.functions,
                output: m.output,
                steps: m.steps,
                at: m.envs.len(),
            };
            match block_m(numbers, inner, v@, 0) {
                Some((m2, f)) => Some((with_at(m2, m.at), f)),
                None => None,
            }
        },
        Stmt::If(c, then_branch, else_branch) => match eval_m(numbers, m, c) {
            Some((m1, Outcome::Value(v))) => if m1.steps > m.steps {
                None
            } else if truthy_val(v) {
                exec_m(numbers, m1, *then_branch)
            } else {
                match *else_branch {
                    Some(e) => exec_m(numbers, m1, e),
                    None => Some((m1, Flow::Normal)),
                }
            },
            Some((m1, Outcome::Error(t, x))) => Some((m1, Flow::Error(t, x))),
            Some((m1, Outcome::Limit)) => Some((m1, Flow::Limit)),
            None => None,
        },
        Stmt::While(c, b) => loop_m(numbers, m, c, *b),
        Stmt::Return(_, e) => match e {
            Expr::Null => Some((m, Flow::Return(Val::Nil))),
            _ => match eval_m(numbers, m, e) {
                Some((m1, Outcome::Value(v))) => Some((m1, Flow::Return(v))),
                Some((m1, Outcome::Error(t, x))) => Some((m1, Flow::Error(t, x))),
            Some((m1, Outcome::Limit)) => Some((m1, Flow::Limit)),
                None => None,
            },
        },
        Stmt::Function(name, params, body) => {
            let f = SFun {
                name: name.lexeme@,
                params: params@.map_values(|t: Token| t.lexeme@),
                body: body@,
                closure: m.at,
            };
            Some(
                (
                    Machine {
                        envs: set_m(
                            m.envs,
                            m.at,
                            name.lexeme@,
                            Val::Function(Callable::User(m.functions.len() as usize)),
                        ),
                        functions: m.functions.push(f),
                        output: m.output,
                        steps: m.steps,
                        at: m.at,
                    },
                    Flow::Normal,
                ),
            )
        },
    }
}

/// Running `stmts[k..]` in order: up to the first statement that does not end normally.
pub open spec fn block_m<N: Numbers>(
    numbers: N,
        m: Machine,
    stmts: Seq<Stmt>,
    k: int,
) -> Option<(Machine, Flow)>
    decreases m.steps, 2int, stmts, stmts.len() - k,
{
    if k < 0 || k >= stmts.len() {
        Some((m, Flow::Normal))
    } else {
        match exec_m(numbers, m, stmts[k]) {
            Some((m1, Flow::Normal)) => if m1.steps > m.steps {
                None
            } else {
                block_m(numbers, m1, stmts, k + 1)
            },
            other => other,
        }
    }
}

/// Running `while (c) body` on `m`: each round evaluates `c`, stops when it is falsy, and
/// otherwise spends one step and runs the body.
pub open spec fn loop_m<N: Numbers>(
    numbers: N,
        m: Machine,
    c: Expr,
    body: Stmt,
) -> Option<(Machine, Flow)>
    decreases m.steps, 2int, body, 1int,
{
    match eval_m(numbers, m, c) {
        Some((m1, Outcome::Value(v))) => if m1.steps > m.steps {
            None
        } else if !truthy_val(v) {
            Some((m1, Flow::Normal))
        } else if m1.steps == 0 {
            Some((m1, Flow::Limit))
        } else {
            let m2 = Machine {
                envs: m1.envs,
                functions: m1.functions,
                output: m1.output,
                steps: (m1.steps - 1) as nat,
                at: m1.at,
            };
            match exec_m(numbers, m2, body) {
                Some((m3, Flow::Normal)) => if m3.steps > m2.steps {
                    None
                } else {
                    loop_m(numbers, m3, c, body)
                },
                other => other,
            }
        },
        Some((m1, Outcome::Error(t, x))) => Some((m1, Flow::Error(t, x))),
            Some((m1, Outcome::Limit)) => Some((m1, Flow::Limit)),
        None => None,
    }
}

/// Running one top-level statement: as `exec_m`, except that with `report` set an expression
/// statement also prints its value.
pub open spec fn top_m<N: Numbers>(
    numbers: N,
        m: Machine,
    s: Stmt,
    report: bool,
) -> Option<(Machine, Flow)> {
    match s {
        Stmt::Expression(e) => if report {
            match eval_m(numbers, m, e) {
                Some((m1, Outcome::Value(v))) => Some(
                    (
                        with_output(m1, display(numbers, m1.functions, v)),
                        Flow::Normal,
                    ),
                ),
                Some((m1, Outcome::Error(t, x))) => Some((m1, Flow::Error(t, x))),
            Some((m1, Outcome::Limit)) => Some((m1, Flow::Limit)),
                None => None,
            }
        } else {
            exec_m(numbers, m, s)
        },
        _ => exec_m(numbers, m, s),
    }
}

/// Running a program's statements `stmts[k..]` in order, up to the first runtime error: the
/// machine after it and the error's line and message, if one ended the run. A `return` at top
/// level ends only its own statement.
pub open spec fn program_m<N: Numbers>(
    numbers: N,
        m: Machine,
    stmts: Seq<Stmt>,
    k: int,
    report: bool,
) -> Option<(Machine, Option<(nat, Seq<char>)>)>
    decreases stmts.len() - k,
{
    if k < 0 || k >= stmts.len() {
        Some((m, None))
    } else {
        match top_m(numbers, m, stmts[k], report) {
            Some((m1, Flow::Error(t, x))) => Some((m1, Some((t.line as nat, x)))),
            Some((m1, Flow::Limit)) => Some((m1, Some((0nat, "Step limit reached."@)))),
            Some((m1, _)) => program_m(numbers, m1, stmts, k + 1, report),
            None => None,
        }
    }
}

/// The machine a run starts from: the global scope holding only the native `clock`, nothing
/// printed, the full budget of steps.
pub open spec fn initial_machine() -> Machine {
    Machine {
        envs: set_m(
            seq![SScope { enclosing: None, values: Seq::empty() }],
            0,
            "clock"@,
            Val::Function(Callable::Native(Clock)),
        ),
        functions: Seq::empty(),
        output: Seq::empty(),
        steps: u64::MAX as nat,
        at: 0,
    }
}

/// Truthiness: `nil` and `false` are false, every other value is true.
pub open spec fn truthy(v: Value) -> bool {
    match v {
        Value::Nil => false,
        Value::Boolean(b) => b,
        _ => true,
    }
}

pub fn is_truthy(value: &Value) -> (r: bool)
    ensures
        r == truthy(*value),
        r == truthy_val(value.val()),
{
    match value {
        Value::Nil => false,
        Value::Boolean(b) => *b,
        _ => true,
    }
}

/// Equality of values other than two numbers: `nil` equals `nil`, strings and booleans
/// compare by value, values of different kinds are unequal.
pub open spec fn same_value(a: Value, b: Value) -> bool {
    match (a, b) {
        (Value::Nil, Value::Nil) => true,
        (Value::Boolean(x), Value::Boolean(y)) => x == y,
        (Value::String(x), Value::String(y)) => x@ == y@,
        _ => false,
    }
}

/// `==` on values; two numbers are equal when `numbers` finds them within epsilon.
pub fn is_equal<N: Numbers>(numbers: &N, a: &Value, b: &Value) -> (r: bool)
    ensures
        r == same_val(*numbers, a.val(), b.val()),
        !(a is Number && b is Number) ==> r == same_value(*a, *b),
{
    match (a, b) {
        (Value::Nil, Value::Nil) => true,
        (Value::Boolean(x), Value::Boolean(y)) => *x == *y,
        (Value::Number(x), Value::Number(y)) => numbers.nearly_equal(*x, *y),
        (Value::String(x), Value::String(y)) => *x == *y,
        _ => false,
    }
}

/// Whether the left operand of `and` / `or` decides the result on its own: `or` stops at
/// a truthy value, `and` at a falsy one. The right operand is evaluated exactly when it does not.
pub open spec fn left_decides(op: TokenType, left: Value) -> bool {
    if op == TokenType::OR {
        truthy(left)
    } else {
        !truthy(left)
    }
}

/// The short-circuit rule of `and` and `or`: `Some(left)` when the left operand decides the
/// result, which is then that operand itself, `None` when the right operand must be evaluated.
pub fn short_circuit(op: TokenType, left: Value) -> (r: Option<Value>)
    ensures
        r is Some <==> left_decides(op, left),
        r is Some ==> r->0 == left,
{
    let truth = is_truthy(&left);
    if op == TokenType::OR {
        if truth {
            Some(left)
        } else {
            None
        }
    } else {
        if !truth {
            Some(left)
        } else {
            None
        }
    }
}

/// The message for a call with the wrong number of arguments.
pub open spec fn arity_message(expected: nat, got: nat) -> Seq<char> {
    "Expected "@ + decimal(expected) + " arguments but got "@ + decimal(got) + "."@
}

/// The arity check of a call: an error at the closing parenthesis exactly when the number of
/// arguments differs from the arity.
pub fn check_arity(arity: usize, got: usize, paren: &Token) -> (r: Result<(), RuntimeError>)
    ensures
        r is Ok <==> arity == got,
        r is Err ==> r->Err_0 == (RuntimeError::Error {
            message: r->Err_0->Error_message,
            line: paren.line,
            token: *paren,
        }) && r->Err_0->Error_message@ == arity_message(arity as nat, got as nat),
{
    if arity == got {
        return Ok(());
    }
    let mut message = owned("Expected ");
    message.append(usize_to_string(arity).as_str());
    message.append(" arguments but got ");
    message.append(usize_to_string(got).as_str());
    message.append(".");
    Err(runtime_error(paren, message))
}

/// The operator kinds that need two numbers.
pub open spec fn numeric_operator(op: TokenType) -> bool {
    op == TokenType::MINUS || op == TokenType::SLASH || op == TokenType::STAR || op
        == TokenType::GREATER || op == TokenType::GREATER_EQUAL || op == TokenType::LESS || op
        == TokenType::LESS_EQUAL
}

/// `r` is an error at `op` with `message`.
pub open spec fn error_at(r: Result<Value, RuntimeError>, op: Token, message: Seq<char>) -> bool {
    r matches Err(RuntimeError::Error { message: m, line, token }) && m@ == message && line
        == op.line && token == op
}

/// A binary operator applied to its two evaluated operands.
pub fn number_operation<N: Numbers>(
    numbers: &N,
    operator: &Token,
    left: Value,
    right: Value,
) -> (r: Result<Value, RuntimeError>)
    ensures
        r matches Err(e) ==> e is Error,
        outcome_is(r, binary_val(*numbers, *operator, left.val(), right.val())),
        operator.token_type == TokenType::PLUS ==> match (left, right) {
            (Value::Number(_), Value::Number(_)) => r matches Ok(Value::Number(_)),
            (Value::String(a), Value::String(b)) => r matches Ok(Value::String(s)) && s@ == a@
                + b@,
            _ => error_at(r, *operator, "Operands must be two numbers or two strings."@),
        },
        numeric_operator(operator.token_type) ==> match (left, right) {
            (Value::Number(_), Value::Number(_)) => r is Ok && (operator.token_type
                == TokenType::MINUS || operator.token_type == TokenType::SLASH
                || operator.token_type == TokenType::STAR <==> r matches Ok(Value::Number(_))),
            _ => error_at(r, *operator, "Operands must be numbers."@),
        },
        numeric_operator(operator.token_type) && !(operator.token_type == TokenType::MINUS
            || operator.token_type == TokenType::SLASH || operator.token_type == TokenType::STAR)
            && r is Ok ==> r matches Ok(Value::Boolean(_)),
        operator.token_type == TokenType::EQUAL_EQUAL ==> (r matches Ok(Value::Boolean(b)) && (
        !(left is Number && right is Number) ==> b == same_value(left, right))),
        operator.token_type == TokenType::BANG_EQUAL ==> (r matches Ok(Value::Boolean(b)) && (
        !(left is Number && right is Number) ==> b == !same_value(left, right))),
{
    let op = operator.token_type;
    if op == TokenType::EQUAL_EQUAL {
        return Ok(Value::Boolean(is_equal(numbers, &left, &right)));
    }
    if op == TokenType::BANG_EQUAL {
        return Ok(Value::Boolean(!is_equal(numbers, &left, &right)));
    }
    if op == TokenType::PLUS {
        return match (left, right) {
            (Value::Number(a), Value::Number(b)) => Ok(Value::Number(numbers.sum(a, b))),
            (Value::String(a), Value::String(b)) => Ok(Value::String(concat(a.as_str(), b.as_str()))),
            _ => Err(runtime_error(operator, owned("Operands must be two numbers or two strings."))),
        };
    }
    match (left, right) {
        (Value::Number(a), Value::Number(b)) => {
            if op == TokenType::MINUS {
                Ok(Value::Number(numbers.difference(a, b)))
            } else if op == TokenType::SLASH {
                Ok(Value::Number(numbers.quotient(a, b)))
            } else if op == TokenType::STAR {
                Ok(Value::Number(numbers.product(a, b)))
            } else if op == TokenType::GREATER {
                Ok(Value::Boolean(numbers.less(b, a)))
            } else if op == TokenType::GREATER_EQUAL {
                Ok(Value::Boolean(numbers.less_equal(b, a)))
            } else if op == TokenType::LESS {
                Ok(Value::Boolean(numbers.less(a, b)))
            } else if op == TokenType::LESS_EQUAL {
                Ok(Value::Boolean(numbers.less_equal(a, b)))
            } else {
                Err(runtime_error(operator, owned("Invalid binary operator.")))
            }
        },
        _ => {
            if op == TokenType::MINUS || op == TokenType::SLASH || op == TokenType::STAR || op
                == TokenType::GREATER || op == TokenType::GREATER_EQUAL || op == TokenType::LESS
                || op == TokenType::LESS_EQUAL {
                Err(runtime_error(operator, owned("Operands must be numbers.")))
            } else {
                Err(runtime_error(operator, owned("Invalid binary operator.")))
            }
        },
    }
}

/// A unary operator applied to its evaluated operand.
pub fn unary_operation<N: Numbers>(numbers: &N, operator: &Token, right: Value) -> (r: Result<
    Value,
    RuntimeError,
>)
    ensures
        r matches Err(e) ==> e is Error,
        outcome_is(r, unary_val(*numbers, *operator, right.val())),
        operator.token_type == TokenType::BANG ==> r == Ok::<Value, RuntimeError>(
            Value::Boolean(!truthy(right)),
        ),
        operator.token_type == TokenType::MINUS ==> if right is Number {
            r matches Ok(Value::Number(_))
        } else {
            error_at(r, *operator, "Operand must be a number."@)
        },
{
    if operator.token_type == TokenType::BANG {
        return Ok(Value::Boolean(!is_truthy(&right)));
    }
    if operator.token_type == TokenType::MINUS {
        return match right {
            Value::Number(n) => Ok(Value::Number(numbers.negate(n))),
            _ => Err(runtime_error(operator, owned("Operand must be a number."))),
        };
    }
    Err(runtime_error(operator, owned("Invalid unary operator.")))
}

/// The error that ends a run whose budget of steps is spent.
fn step_limit_error() -> (r: RuntimeError)
    ensures
        r matches RuntimeError::Error { message, line, .. } && message@ == "Step limit reached."@
            && line == 0,
{
    let token = Token {
        token_type: TokenType::EOF,
        lexeme: owned(""),
        line: 0,
        literal: Literal::Nothing,
        offset: 0,
    };
    RuntimeError::Error { message: owned("Step limit reached."), line: 0, token }
}

/// Relies on std::time::SystemTime::elapsed, called on UNIX_EPOCH: the time since the Unix
/// epoch in whole seconds, or `None` when the system clock reads earlier than the epoch.
/// Nothing else is promised of the reading.
#[verifier::external_body]
fn unix_seconds() -> Option<u64> {
    match std::time::UNIX_EPOCH.elapsed() {
        Ok(elapsed) => Some(elapsed.as_secs()),
        Err(_) => None,
    }
}

/// The interpreter: the scopes of the run, the declared functions, the current scope, what
/// `print` wrote, and a budget of steps (one per loop iteration and per call) that bounds
/// the run.
pub struct Evaluate<'a, N: Numbers> {
    pub globals: usize,
    pub environment: usize,
    pub envs: Environment,
    pub functions: Vec<LoxFunction<'a>>,
    pub output: Vec<String>,
    pub steps: u64,
    pub numbers: N,
}

impl<'a, N: Numbers> Evaluate<'a, N> {
    pub open spec fn wf(self) -> bool {
        &&& self.envs.wf()
        &&& self.globals == 0
        &&& self.environment < self.envs.scopes@.len()
        &&& forall|i: int|
            0 <= i < self.functions@.len() ==> (#[trigger] self.functions@[i]).closure
                < self.envs.scopes@.len()
    }

    /// The state as contracts see it.
    pub open spec fn machine(self) -> Machine {
        Machine {
            envs: self.envs.model(),
            functions: self.functions@.map_values(|f: LoxFunction<'a>| f.model()),
            output: views(self.output@),
            steps: self.steps as nat,
            at: self.environment as nat,
        }
    }

    /// `self` follows from `old` by running code: still well formed, in the same current
    /// scope, with no more steps left, no scope lost or moved, and the output only added to.
    pub open spec fn follows(self, old: Self) -> bool {
        &&& self.wf()
        &&& self.environment == old.environment
        &&& self.steps <= old.steps
        &&& self.envs.scopes@.len() >= old.envs.scopes@.len()
        &&& forall|i: int|
            0 <= i < old.envs.scopes@.len() ==> #[trigger] self.envs.scopes@[i].enclosing
                == old.envs.scopes@[i].enclosing
        &&& old.output@.is_prefix_of(self.output@)
    }

    /// An interpreter whose current scope is the empty global scope.
    pub fn new(numbers: N) -> (r: Self)
        ensures
            r.wf(),
            r.environment == r.globals,
            r.envs.scopes@.len() == 1,
            r.envs.scopes@[0].values@.len() == 0,
            r.output@.len() == 0,
            r.steps == u64::MAX,
            r.functions@.len() == 0,
            r.numbers == numbers,
            r.envs.scopes@[0].enclosing is None,
            r.machine().envs == seq![SScope { enclosing: None, values: Seq::empty() }],
    {
        let r = Evaluate {
            globals: 0,
            environment: 0,
            envs: Environment::new(),
            functions: Vec::new(),
            output: Vec::new(),
            steps: u64::MAX,
            numbers,
        };
        assert(r.machine().envs =~= seq![SScope { enclosing: None, values: Seq::empty() }]) by {
            assert(crate::environment::bindings_model(r.envs.scopes@[0].values@) =~= Seq::<crate::environment::SBinding>::empty());
        }
        r
    }

    /// Binds the native `clock` in the global scope.
    pub fn define_globals(&mut self)
        requires
            old(self).wf(),
        ensures
            final(self).wf(),
            final(self).environment == old(self).environment,
            final(self).steps == old(self).steps,
            final(self).output == old(self).output,
            final(self).envs.resolve(0, "clock"@) == Some(Value::Function(Callable::Native(Clock))),
            final(self).functions == old(self).functions,
            final(self).numbers == old(self).numbers,
            final(self).envs.model() == set_m(old(self).envs.model(), 0, "clock"@, Val::Function(Callable::Native(Clock))),
    {
        let name = owned("clock");
        let ghost before = self.envs;
        self.envs.define(0, name, Value::Function(Callable::Native(Clock)));
        proof {
            crate::environment::lemma_definition_scoping(
                before,
                self.envs,
                0,
                name,
                Value::Function(Callable::Native(Clock)),
                0,
                name@,
            );
            crate::environment::lemma_put_at_model(self.envs, before, 0, name, Value::Function(Callable::Native(Clock)));
        }
    }

    /// The value of a literal.
    fn literal_value(&self, value: &Literal) -> (r: Value)
        ensures
            value is Nothing ==> r == Value::Nil,
            *value matches Literal::Boolean(b) ==> r == Value::Boolean(b),
            *value matches Literal::String(s) ==> r == Value::String(s),
            value is Number ==> r is Number,
            r.val() == literal_val(self.numbers, *value),
    {
        match value {
            Literal::Number(n) => Value::Number(self.numbers.from_numeral(n)),
            Literal::String(s) => Value::String(s.clone()),
            Literal::Boolean(b) => Value::Boolean(*b),
            Literal::Identifier(_) => Value::Nil,
            Literal::Nothing => Value::Nil,
        }
    }

    /// The value of a variable in the current scope.
    fn visit_variable_expr(&self, name: &Token) -> (r: Result<Value, RuntimeError>)
        requires
            self.wf(),
        ensures
            match self.envs.resolve(self.environment as nat, name.lexeme@) {
                Some(v) => r == Ok::<Value, RuntimeError>(v),
                None => error_at(r, *name, crate::environment::undefined_message(name.lexeme@)),
            },
    {
        self.envs.get(self.environment, name)
    }

    /// Declares a function: it captures the current scope and is bound there under its name.
    fn visit_function_stmt(&mut self, name: &Token, parameter: &Vec<Token>, body: &'a Vec<Stmt>)
        requires
            old(self).wf(),
        ensures
            final(self).wf(),
            final(self).environment == old(self).environment,
            final(self).steps == old(self).steps,
            final(self).output == old(self).output,
            final(self).functions@.len() == old(self).functions@.len() + 1,
            final(self).functions@.last().closure == old(self).environment,
            final(self).functions@.last().parameter@ == parameter@,
            final(self).envs.put_at(
                old(self).envs,
                old(self).environment as nat,
                name.lexeme,
                Value::Function(Callable::User(old(self).functions@.len() as usize)),
            ),
            final(self).envs.resolve(old(self).environment as nat, name.lexeme@) == Some(
                Value::Function(Callable::User(old(self).functions@.len() as usize)),
            ),
            final(self).numbers == old(self).numbers,
            final(self).machine() == (Machine {
                envs: set_m(
                    old(self).machine().envs,
                    old(self).environment as nat,
                    name.lexeme@,
                    Val::Function(Callable::User(old(self).functions@.len() as usize)),
                ),
                functions: old(self).machine().functions.push(
                    SFun {
                        name: name.lexeme@,
                        params: parameter@.map_values(|t: Token| t.lexeme@),
                        body: body@,
                        closure: old(self).environment as nat,
                    },
                ),
                output: old(self).machine().output,
                steps: old(self).machine().steps,
                at: old(self).machine().at,
            }),
    {
        let index = self.functions.len();
        let function = LoxFunction::new(name.copy(), copy_tokens(parameter), body, self.environment);
        self.functions.push(function);
        let at = self.environment;
        let ghost before = self.envs;
        self.envs.define(at, name.lexeme.clone(), Value::Function(Callable::User(index)));
        proof {
            crate::environment::lemma_definition_scoping(
                before,
                self.envs,
                at as nat,
                name.lexeme,
                Value::Function(Callable::User(index)),
                at as nat,
                name.lexeme@,
            );
            crate::environment::lemma_put_at_model(self.envs, before, at as nat, name.lexeme, Value::Function(Callable::User(index)));
            assert(self.machine().functions =~= old(self).machine().functions.push(
                SFun {
                    name: name.lexeme@,
                    params: parameter@.map_values(|t: Token| t.lexeme@),
                    body: body@,
                    closure: old(self).environment as nat,
                },
            ));
        }
        assert forall|i: int| 0 <= i < self.functions@.len() implies (#[trigger] self.functions@[i]).closure
            < self.envs.scopes@.len() by {
            if i < index {
                assert(self.functions@[i] == old(self).functions@[i]);
            }
        }
    }

    /// The string that `print` writes for a value.
    pub fn stringify(&self, value: &Value) -> (r: String)
        ensures
            r@ == display(self.numbers, self.machine().functions, value.val()),
            value is Nil ==> r@ == "nil"@,
            *value matches Value::Boolean(b) ==> r@ == if b {
                "true"@
            } else {
                "false"@
            },
            *value matches Value::String(s) ==> r@ == s@,
            value == Value::Function(Callable::Native(Clock)) ==> r@ == "<native fn>"@,
            *value matches Value::Function(Callable::User(i)) ==> i < self.functions@.len() ==> r@
                == "<fn "@ + self.functions@[i as int].name.lexeme@ + ">"@,
    {
        match value {
            Value::Number(n) => self.numbers.show(*n),
            Value::String(s) => s.clone(),
            Value::Boolean(b) => if *b {
                owned("true")
            } else {
                owned("false")
            },
            Value::Nil => owned("nil"),
            Value::Function(Callable::Native(c)) => c.to_string(),
            Value::Function(Callable::User(i)) => {
                if *i < self.functions.len() {
                    self.functions[*i].to_string()
                } else {
                    owned("<fn>")
                }
            },
        }
    }

    /// Calls `callee` on evaluated arguments: an error unless it is a function, an error
    /// unless the count of arguments is its arity, then the native clock, or the function's
    /// body run in a new scope enclosed by its captured scope, with its parameters bound.
    fn call(&mut self, callee: Value, paren: &Token, arguments: Vec<Value>) -> (r: Result<
        Value,
        RuntimeError,
    >)
        requires
            old(self).wf(),
        ensures
            final(self).follows(*old(self)),
            !(callee is Function) ==> error_at(r, *paren, "Can only call functions and classes."@)
                && *final(self) == *old(self),
            callee == Value::Function(Callable::Native(Clock)) ==> if arguments@.len() == 0 {
                (exists|seconds: u64|
                    r == Ok::<Value, RuntimeError>(Value::Number(old(self).numbers.count_of(seconds))))
                    && *final(self) == *old(self)
            } else {
                error_at(r, *paren, arity_message(0, arguments@.len())) && *final(self) == *old(
                    self,
                )
            },
            callee matches Value::Function(Callable::User(i)) ==> i < old(self).functions@.len()
                && arguments@.len() != old(self).functions@[i as int].parameter@.len() ==> error_at(
                r,
                *paren,
                arity_message(
                    old(self).functions@[i as int].parameter@.len(),
                    arguments@.len(),
                ),
            ) && *final(self) == *old(self),
            r matches Err(RuntimeError::Return(_)) ==> false,
            call_m(old(self).numbers, old(self).machine(), callee.val(), *paren, vals(arguments@))
                matches Some((m, o)) ==> outcome_is(r, o) && final(self).machine() == m
                && final(self).numbers == old(self).numbers,
            callee matches Value::Function(Callable::User(i)) ==> i < old(self).functions@.len()
                && arguments@.len() == old(self).functions@[i as int].parameter@.len() && old(
                self,
            ).steps > 0 ==> final(self).envs.scopes@.len() > old(self).envs.scopes@.len()
                && final(self).envs.scopes@[old(self).envs.scopes@.len() as int].enclosing == Some(
                old(self).functions@[i as int].closure,
            ),
        decreases old(self).steps, 0nat, *paren, 0nat,
    {
        match callee {
            Value::Function(Callable::Native(clock)) => {
                match check_arity(clock.arity(), arguments.len(), paren) {
                    Ok(()) => {},
                    Err(e) => return Err(e),
                }
                let seconds = match unix_seconds() {
                    Some(s) => s,
                    None => 0,
                };
                let r = Ok(Value::Number(self.numbers.from_count(seconds)));
                assert(r == Ok::<Value, RuntimeError>(Value::Number(old(self).numbers.count_of(seconds))));
                r
            },
            Value::Function(Callable::User(index)) => {
                if index >= self.functions.len() {
                    return Err(runtime_error(paren, owned("Can only call functions and classes.")));
                }
                let arity = self.functions[index].arity();
                match check_arity(arity, arguments.len(), paren) {
                    Ok(()) => {},
                    Err(e) => return Err(e),
                }
                if self.steps == 0 {
                    return Err(runtime_error(paren, owned("Step limit reached.")));
                }
                self.steps = self.steps - 1;
                let closure = self.functions[index].closure;
                let ghost before_scope = self.envs;
                let env = self.envs.from_enclosing(closure);
                let ghost pushed = old(self).machine().envs.push(
                    SScope { enclosing: Some(closure), values: Seq::empty() },
                );
                let ghost params = old(self).machine().functions[index as int].params;
                let ghost args = vals(arguments@);
                assert(self.envs.model() =~= pushed) by {
                    assert(crate::environment::bindings_model(self.envs.scopes@[env as int].values@) =~= Seq::<crate::environment::SBinding>::empty());
                }
                let mut k: usize = 0;
                while k < arity
                    invariant
                        self.wf(),
                        self.environment == old(self).environment,
                        self.steps < old(self).steps,
                        self.steps == old(self).steps - 1,
                        self.output == old(self).output,
                        self.functions == old(self).functions,
                        self.envs.scopes@.len() == old(self).envs.scopes@.len() + 1,
                        env == old(self).envs.scopes@.len(),
                        self.envs.scopes@[env as int].enclosing == Some(closure),
                        closure == old(self).functions@[index as int].closure,
                        forall|k: int|
                            0 <= k < old(self).envs.scopes@.len() ==> #[trigger] self.envs.scopes@[k].enclosing
                                == old(self).envs.scopes@[k].enclosing,
                        index < self.functions@.len(),
                        arity == self.functions@[index as int].parameter@.len(),
                        arity == arguments@.len(),
                        k <= arity,
                        self.numbers == old(self).numbers,
                        params == old(self).machine().functions[index as int].params,
                        args == vals(arguments@),
                        params.len() == arity,
                        bind_m(pushed, env as nat, params, args, 0) == bind_m(self.envs.model(), env as nat, params, args, k as int),
                        forall|j: int|
                            0 <= j < old(self).envs.scopes@.len() ==> #[trigger] self.envs.scopes@[j]
                                == old(self).envs.scopes@[j],
                        forall|x: Seq<char>|
                            #[trigger] lookup_in(self.envs.scopes@[env as int].values@, x) is Some
                                ==> exists|m: int|
                                0 <= m < k && (#[trigger] self.functions@[index as int].parameter@[m]).lexeme@
                                    == x,
                        forall|m: int|
                            0 <= m < k ==> lookup_in(
                                self.envs.scopes@[env as int].values@,
                                (#[trigger] self.functions@[index as int].parameter@[m]).lexeme@,
                            ) is Some,
                    decreases arity - k,
                {
                    let ghost old_values = self.envs.scopes@[env as int].values@;
                    let ghost old_model = self.envs.model();
                    let name = self.functions[index].parameter[k].lexeme.clone();
                    let value = arguments[k].copy();
                    let ghost before = self.envs;
                    self.envs.define(env, name, value);
                    assert forall|j: int| 0 <= j < self.envs.scopes@.len() implies #[trigger] self.envs.scopes@[j].enclosing
                        == before.scopes@[j].enclosing by {
                        if j != env {
                            assert(self.envs.scopes@[j] == before.scopes@[j]);
                        }
                    }
                    assert forall|i: int| 0 <= i < self.functions@.len() implies (#[trigger] self.functions@[i]).closure
                        < self.envs.scopes@.len() by {}
                    proof {
                        crate::environment::lemma_put_at_model(self.envs, before, env as nat, name, value);
                        assert(name@ == params[k as int]);
                        assert(value.val() == args[k as int]);
                        assert(bind_m(old_model, env as nat, params, args, k as int) == bind_m(self.envs.model(), env as nat, params, args, k + 1));
                        let params = self.functions@[index as int].parameter@;
                        assert forall|x: Seq<char>| #[trigger] lookup_in(self.envs.scopes@[env as int].values@, x) is Some
                            implies exists|m: int| 0 <= m < k + 1 && (#[trigger] params[m]).lexeme@ == x by {
                            lemma_put(old_values, name, value, x);
                            if x == name@ {
                                assert(params[k as int].lexeme@ == x);
                            }
                        }
                        assert forall|m: int| 0 <= m < k + 1 implies lookup_in(
                            self.envs.scopes@[env as int].values@,
                            (#[trigger] params[m]).lexeme@,
                        ) is Some by {
                            lemma_put(old_values, name, value, params[m].lexeme@);
                        }
                        assert forall|j: int| 0 <= j < old(self).envs.scopes@.len() implies #[trigger] self.envs.scopes@[j]
                            == old(self).envs.scopes@[j] by {
                            assert(self.envs.scopes@[j] == before.scopes@[j]);
                        }
                    }
                    k = k + 1;
                }
                // The body runs in `env`: enclosed by the captured scope, and binding the
                // parameters alone, so that every other name reads as it reads in the captured
                // scope now, at the call.
                proof {
                    assert forall|x: Seq<char>| (forall|m: int| 0 <= m < arity ==> #[trigger] self.functions@[index as int].parameter@[m].lexeme@ != x)
                        implies #[trigger] self.envs.resolve(env as nat, x) == old(self).envs.resolve(closure as nat, x) by {
                        assert(self.envs.extends(old(self).envs));
                        crate::environment::lemma_closure_reads_current(old(self).envs, self.envs, closure as nat, x);
                    }
                }
                let body = self.functions[index].body;
                proof {
                    assert(self.envs.model() == bind_m(pushed, env as nat, params, args, 0));
                    assert(self.machine().functions == old(self).machine().functions);
                    assert(body@ == old(self).machine().functions[index as int].body);
                    assert(args.len() == params.len());
                    let f = old(self).machine().functions[index as int];
                    assert(f.closure == closure);
                    let inner = Machine {
                        envs: bind_m(pushed, env as nat, params, args, 0),
                        functions: old(self).machine().functions,
                        output: old(self).machine().output,
                        steps: (old(self).machine().steps - 1) as nat,
                        at: old(self).machine().envs.len(),
                    };
                    assert(with_at(self.machine(), env as nat) == inner);
                }
                match self.execute_block(body, env) {
                    Ok(()) => Ok(Value::Nil),
                    Err(RuntimeError::Return(ret)) => Ok(ret.value),
                    Err(e) => Err(e),
                }
            },
            _ => Err(runtime_error(paren, owned("Can only call functions and classes."))),
        }
    }

    /// Runs `statements` in scope `env`, and returns to the current scope afterwards, however
    /// the run ends.
    pub fn execute_block(&mut self, statements: &'a Vec<Stmt>, env: usize) -> (r: Result<
        (),
        RuntimeError,
    >)
        requires
            old(self).wf(),
            env < old(self).envs.scopes@.len(),
        ensures
            final(self).follows(*old(self)),
            statements@.len() == 0 ==> r is Ok && *final(self) == *old(self),
            block_m(old(self).numbers, with_at(old(self).machine(), env as nat), statements@, 0)
                matches Some((m, f)) ==> flow_is(r, f) && final(self).machine() == with_at(m, old(self).environment as nat)
                && final(self).numbers == old(self).numbers,
        decreases old(self).steps, 2nat, *statements, 0nat,
    {
        if statements.len() == 0 {
            return Ok(());
        }
        let previous = self.environment;
        self.environment = env;
        let mut i: usize = 0;
        let ghost spec_run = block_m(self.numbers, with_at(self.machine(), env as nat), statements@, 0);
        while i < statements.len()
            invariant
                spec_run == block_m(old(self).numbers, with_at(old(self).machine(), env as nat), statements@, 0),
                spec_run matches Some(res) ==> (block_m(self.numbers, self.machine(), statements@, i as int) == Some(res)
                    && self.numbers == old(self).numbers),
                self.wf(),
                self.environment == env,
                self.steps <= old(self).steps,
                self.envs.scopes@.len() >= old(self).envs.scopes@.len(),
                forall|k: int|
                    0 <= k < old(self).envs.scopes@.len() ==> #[trigger] self.envs.scopes@[k].enclosing
                        == old(self).envs.scopes@[k].enclosing,
                old(self).output@.is_prefix_of(self.output@),
                previous == old(self).environment,
                previous < old(self).envs.scopes@.len(),
            decreases statements.len() - i,
        {
            match self.execute(&statements[i]) {
                Ok(()) => {},
                Err(e) => {
                    self.environment = previous;
                    return Err(e);
                },
            }
            i = i + 1;
        }
        self.environment = previous;
        Ok(())
    }

    /// Evaluates an expression.
    pub fn evaluate(&mut self, expr: &Expr) -> (r: Result<Value, RuntimeError>)
        requires
            old(self).wf(),
        ensures
            final(self).follows(*old(self)),
            r matches Err(RuntimeError::Return(_)) ==> false,
            *expr matches Expr::Literal { value } ==> r is Ok && *final(self) == *old(self) && (
            value is Nothing ==> r == Ok::<Value, RuntimeError>(Value::Nil)) && (value matches Literal::Boolean(b)
                ==> r == Ok::<Value, RuntimeError>(Value::Boolean(b))),
            *expr matches Expr::Variable { name } ==> *final(self) == *old(self) && match old(
                self,
            ).envs.resolve(old(self).environment as nat, name.lexeme@) {
                Some(v) => r == Ok::<Value, RuntimeError>(v),
                None => error_at(r, name, crate::environment::undefined_message(name.lexeme@)),
            },
            eval_pure(old(self).numbers, old(self).envs, old(self).environment as nat, *expr) matches Some(o)
                ==> outcome_is(r, o) && *final(self) == *old(self),
            eval_m(old(self).numbers, old(self).machine(), *expr) matches Some((m, o)) ==> outcome_is(r, o)
                && final(self).machine() == m && final(self).numbers == old(self).numbers,
            *expr matches Expr::Call { callee, paren, .. } ==> (eval_pure(
                old(self).numbers,
                old(self).envs,
                old(self).environment as nat,
                *callee,
            ) matches Some(Outcome::Value(v)) ==> (!(v is Function) ==> error_at(
                r,
                paren,
                "Can only call functions and classes."@,
            ) && *final(self) == *old(self))),
            *expr matches Expr::Call { callee, paren, arguments } ==> (eval_pure(
                old(self).numbers,
                old(self).envs,
                old(self).environment as nat,
                *callee,
            ) matches Some(Outcome::Value(Val::Function(Callable::User(i)))) ==> (eval_pure_args(
                old(self).numbers,
                old(self).envs,
                old(self).environment as nat,
                arguments@,
                0,
            ) matches Some(Ok(vs)) ==> (i < old(self).functions@.len() && vs.len()
                != old(self).functions@[i as int].parameter@.len() ==> error_at(
                r,
                paren,
                arity_message(old(self).functions@[i as int].parameter@.len(), vs.len()),
            ) && *final(self) == *old(self)))),
            r is Ok ==> (*expr matches Expr::Assign { name, .. } ==> final(self).envs.resolve(
                final(self).environment as nat,
                name.lexeme@,
            ) == Some(r->Ok_0)),
        decreases old(self).steps, 1nat, *expr, 0nat,
    {
        match expr {
            Expr::Literal { value } => Ok(self.literal_value(value)),
            Expr::Grouping { expression } => self.evaluate(expression),
            Expr::Unary { operator, right } => {
                let value = match self.evaluate(right) {
                    Ok(v) => v,
                    Err(e) => return Err(e),
                };
                unary_operation(&self.numbers, operator, value)
            },
            Expr::Variable { name } => {
                proof {
                    crate::environment::lemma_defining_model(self.envs, self.environment as nat, name.lexeme@);
                }
                self.visit_variable_expr(name)
            },
            Expr::Assign { name, value } => {
                let v = match self.evaluate(value) {
                    Ok(v) => v,
                    Err(e) => return Err(e),
                };
                let at = self.environment;
                let ghost before = self.envs;
                let ghost assigned = v;
                proof {
                    crate::environment::lemma_defining_model(self.envs, at as nat, name.lexeme@);
                }
                match self.envs.assign(at, name, v.copy()) {
                    Ok(()) => {
                        proof {
                            let s = before.defining(at as nat, name.lexeme@)->0;
                            crate::environment::lemma_defining_model(before, at as nat, name.lexeme@);
                            crate::environment::lemma_put_at_model(self.envs, before, s, name.lexeme, assigned);
                            crate::environment::lemma_defining_defines(before, at as nat, name.lexeme@);
                            crate::environment::lemma_assignment_scoping(
                                before,
                                self.envs,
                                s,
                                name.lexeme,
                                assigned,
                                at as nat,
                                name.lexeme@,
                            );
                        }
                        Ok(v)
                    },
                    Err(e) => Err(e),
                }
            },
            Expr::Logical { left, operator, right } => {
                let l = match self.evaluate(left) {
                    Ok(v) => v,
                    Err(e) => return Err(e),
                };
                self.visit_logical_expr(l, operator, right)
            },
            Expr::Call { callee, paren, arguments } => {
                let function = match self.evaluate(callee) {
                    Ok(v) => v,
                    Err(e) => return Err(e),
                };
                if !matches!(function, Value::Function(_)) {
                    return Err(runtime_error(paren, owned("Can only call functions and classes.")));
                }
                let values = match self.evaluate_arguments(arguments) {
                    Ok(v) => v,
                    Err(e) => return Err(e),
                };
                self.call(function, paren, values)
            },
            Expr::Binary { left, operator, right } => {
                let l = match self.evaluate(left) {
                    Ok(v) => v,
                    Err(e) => return Err(e),
                };
                let r = match self.evaluate(right) {
                    Ok(v) => v,
                    Err(e) => return Err(e),
                };
                number_operation(&self.numbers, operator, l, r)
            },
            Expr::Null => Ok(Value::Nil),
        }
    }

    /// The rest of `left and right` / `left or right` once `left` is evaluated: when `left`
    /// decides the result it is the result, and `right` is not evaluated at all (nothing
    /// changes); otherwise the result is that of `right`.
    fn visit_logical_expr(&mut self, left: Value, operator: &Token, right: &Expr) -> (r: Result<
        Value,
        RuntimeError,
    >)
        requires
            old(self).wf(),
        ensures
            final(self).follows(*old(self)),
            r matches Err(RuntimeError::Return(_)) ==> false,
            left_decides(operator.token_type, left) ==> r == Ok::<Value, RuntimeError>(left)
                && *final(self) == *old(self),
            !left_decides(operator.token_type, left) ==> (eval_pure(
                old(self).numbers,
                old(self).envs,
                old(self).environment as nat,
                *right,
            ) matches Some(o) ==> outcome_is(r, o) && *final(self) == *old(self)),
            !left_decides(operator.token_type, left) ==> (eval_m(old(self).numbers, old(self).machine(), *right)
                matches Some((m, o)) ==> outcome_is(r, o) && final(self).machine() == m
                && final(self).numbers == old(self).numbers),
        decreases old(self).steps, 1nat, *right, 1nat,
    {
        match short_circuit(operator.token_type, left) {
            Some(decided) => Ok(decided),
            None => self.evaluate(right),
        }
    }

    /// Evaluates the arguments of a call, left to right.
    fn evaluate_arguments(&mut self, arguments: &Vec<Expr>) -> (r: Result<Vec<Value>, RuntimeError>)
        requires
            old(self).wf(),
        ensures
            final(self).follows(*old(self)),
            r matches Err(RuntimeError::Return(_)) ==> false,
            r matches Ok(values) ==> values@.len() == arguments@.len(),
            eval_pure_args(old(self).numbers, old(self).envs, old(self).environment as nat, arguments@, 0)
                matches Some(Ok(vs)) ==> (r matches Ok(values) && values@.len() == vs.len()
                && (forall|k: int| 0 <= k < vs.len() ==> (#[trigger] values@[k]).val() == vs[k])
                && *final(self) == *old(self)),
            args_m(old(self).numbers, old(self).machine(), arguments@, 0) matches Some((m, res)) ==> (
            args_are(r, res) && final(self).machine() == m && final(self).numbers == old(self).numbers),
        decreases old(self).steps, 1nat, *arguments, 0nat,
    {
        let mut values: Vec<Value> = Vec::new();
        let mut k: usize = 0;
        let ghost spec_args = eval_pure_args(
            self.numbers,
            self.envs,
            self.environment as nat,
            arguments@,
            0,
        );
        proof {
            if spec_args matches Some(Ok(_)) {
                lemma_pure_args(self.numbers, self.envs, self.environment as nat, arguments@, 0);
            }
        }
        let ghost margs = args_m(self.numbers, self.machine(), arguments@, 0);
        assert(vals(values@) =~= Seq::<Val>::empty());
        while k < arguments.len()
            invariant
                self.follows(*old(self)),
                k <= arguments@.len(),
                values@.len() == k,
                spec_args == eval_pure_args(
                    old(self).numbers,
                    old(self).envs,
                    old(self).environment as nat,
                    arguments@,
                    0,
                ),
                margs == args_m(old(self).numbers, old(self).machine(), arguments@, 0),
                margs matches Some((mf, res)) ==> (self.numbers == old(self).numbers && match args_m(
                    self.numbers,
                    self.machine(),
                    arguments@,
                    k as int,
                ) {
                    Some((m2, res2)) => m2 == mf && match (res, res2) {
                        (Ok(vs), Ok(rest)) => vs == vals(values@) + rest,
                        (Err(o), Err(o2)) => o == o2,
                        _ => false,
                    },
                    None => false,
                }),
                spec_args matches Some(Ok(vs)) ==> (*self == *old(self) && vs.len()
                    == arguments@.len() && (forall|j: int|
                    0 <= j < vs.len() ==> eval_pure(
                        old(self).numbers,
                        old(self).envs,
                        old(self).environment as nat,
                        #[trigger] arguments@[0 + j],
                    ) == Some(Outcome::Value(vs[j]))) && (forall|j: int|
                    0 <= j < k ==> (#[trigger] values@[j]).val() == vs[j])),
            decreases arguments.len() - k,
        {
            proof {
                if spec_args matches Some(Ok(vs)) {
                    assert(arguments@[0 + k as int] == arguments@[k as int]);
                }
            }
            let ghost before = vals(values@);
            let v = match self.evaluate(&arguments[k]) {
                Ok(v) => v,
                Err(e) => return Err(e),
            };
            values.push(v);
            proof {
                assert(vals(values@) =~= before.push(v.val()));
                match (margs, args_m(self.numbers, self.machine(), arguments@, k + 1)) {
                    (Some((mf, Ok(vs))), Some((m2, Ok(rest)))) => {
                        assert(vs =~= vals(values@) + rest);
                    },
                    _ => {},
                }
            }
            k = k + 1;
        }
        proof {
            match margs {
                Some((mf, Ok(vs))) => {
                    assert(vs =~= vals(values@));
                },
                _ => {},
            }
        }
        Ok(values)
    }

    /// Executes a statement. A `return` ends it with `RuntimeError::Return`, which blocks,
    /// conditionals and loops pass on to the call that runs them.
    pub fn execute(&mut self, stmt: &'a Stmt) -> (r: Result<(), RuntimeError>)
        requires
            old(self).wf(),
        ensures
            final(self).follows(*old(self)),
            exec_m(old(self).numbers, old(self).machine(), *stmt) matches Some((m, f))
                ==> flow_is(r, f) && final(self).machine() == m && final(self).numbers == old(self).numbers,
            *stmt matches Stmt::Function(name, _, _) ==> r is Ok && final(self).functions@.len()
                == old(self).functions@.len() + 1 && final(self).functions@.last().closure == old(
                self,
            ).environment && final(self).envs.resolve(old(self).environment as nat, name.lexeme@)
                == Some(Value::Function(Callable::User(old(self).functions@.len() as usize))),
            *stmt matches Stmt::Var(name, Expr::Null) ==> r is Ok && final(self).envs.resolve(
                old(self).environment as nat,
                name.lexeme@,
            ) == Some(Value::Nil),
            *stmt matches Stmt::Return(_, Expr::Null) ==> r matches Err(RuntimeError::Return(ret))
                && ret.value == Value::Nil,
            *stmt is Print && r is Ok ==> final(self).output@.len() > old(self).output@.len(),
            *stmt matches Stmt::Expression(e) ==> (eval_pure(
                old(self).numbers,
                old(self).envs,
                old(self).environment as nat,
                e,
            ) matches Some(o) ==> *final(self) == *old(self) && match o {
                Outcome::Value(_) => r is Ok,
                Outcome::Error(t, m) => failed_at(r, t, m),
                Outcome::Limit => true,
            }),
            *stmt matches Stmt::Print(e) ==> (eval_pure(
                old(self).numbers,
                old(self).envs,
                old(self).environment as nat,
                e,
            ) matches Some(Outcome::Value(v)) ==> r is Ok
                && final(self).output@.len() == old(self).output@.len() + 1
                && final(self).output@.drop_last() == old(self).output@
                && final(self).output@.last()@ == display(old(self).numbers, old(self).machine().functions, v)
                && final(self).envs == old(self).envs),
            *stmt matches Stmt::Var(name, e) ==> (eval_pure(
                old(self).numbers,
                old(self).envs,
                old(self).environment as nat,
                e,
            ) matches Some(Outcome::Value(v)) ==> r is Ok && (final(self).envs.resolve(
                old(self).environment as nat,
                name.lexeme@,
            ) matches Some(x) && x.val() == v)),
            *stmt matches Stmt::If(c, _, else_branch) ==> (eval_pure(
                old(self).numbers,
                old(self).envs,
                old(self).environment as nat,
                c,
            ) matches Some(Outcome::Value(v)) ==> (!truthy_val(v) && (*else_branch) is None
                ==> r is Ok && *final(self) == *old(self))),
            *stmt matches Stmt::While(c, _) ==> (eval_pure(
                old(self).numbers,
                old(self).envs,
                old(self).environment as nat,
                c,
            ) matches Some(Outcome::Value(v)) ==> (!truthy_val(v) ==> r is Ok && *final(self)
                == *old(self))),
            *stmt matches Stmt::Return(_, e) ==> (eval_pure(
                old(self).numbers,
                old(self).envs,
                old(self).environment as nat,
                e,
            ) matches Some(Outcome::Value(v)) ==> (r matches Err(RuntimeError::Return(ret))
                && ret.value.val() == v) && *final(self) == *old(self)),
        decreases old(self).steps, 2nat, *stmt, 0nat,
    {
        match stmt {
            Stmt::Expression(expr) => match self.evaluate(expr) {
                Ok(_) => Ok(()),
                Err(e) => Err(e),
            },
            Stmt::Print(expr) => {
                let value = match self.evaluate(expr) {
                    Ok(v) => v,
                    Err(e) => return Err(e),
                };
                let text = self.stringify(&value);
                let ghost printed = self.output@;
                self.output.push(text);
                assert(views(self.output@) =~= views(printed).push(text@));
                Ok(())
            },
            Stmt::Block(statements) => {
                let at = self.environment;
                let ghost before = self.envs;
                let env = self.envs.from_enclosing(at);
                assert(self.envs.model() =~= before.model().push(
                    SScope { enclosing: Some(at), values: Seq::empty() },
                )) by {
                    assert(crate::environment::bindings_model(self.envs.scopes@[env as int].values@) =~= Seq::<crate::environment::SBinding>::empty());
                }
                self.execute_block(statements, env)
            },
            Stmt::Var(name, initializer) => {
                let value = match initializer {
                    Expr::Null => Value::Nil,
                    _ => match self.evaluate(initializer) {
                        Ok(v) => v,
                        Err(e) => return Err(e),
                    },
                };
                let at = self.environment;
                let ghost before = self.envs;
                let ghost v = value;
                self.envs.define(at, name.lexeme.clone(), value);
                proof {
                    crate::environment::lemma_definition_scoping(
                        before,
                        self.envs,
                        at as nat,
                        name.lexeme,
                        v,
                        at as nat,
                        name.lexeme@,
                    );
                    crate::environment::lemma_put_at_model(self.envs, before, at as nat, name.lexeme, v);
                }
                Ok(())
            },
            Stmt::If(condition, then_branch, else_branch) => {
                let value = match self.evaluate(condition) {
                    Ok(v) => v,
                    Err(e) => return Err(e),
                };
                if is_truthy(&value) {
                    self.execute(then_branch)
                } else {
                    match &**else_branch {
                        Some(s) => self.execute(s),
                        None => Ok(()),
                    }
                }
            },
            Stmt::While(condition, body) => {
                let ghost spec_loop = loop_m(self.numbers, self.machine(), *condition, **body);
                assert(exec_m(self.numbers, self.machine(), *stmt) == spec_loop);
                loop
                    invariant
                        spec_loop == loop_m(old(self).numbers, old(self).machine(), *condition, **body),
                        exec_m(old(self).numbers, old(self).machine(), *stmt) == spec_loop,
                        spec_loop matches Some(res) ==> (loop_m(self.numbers, self.machine(), *condition, **body)
                            == Some(res) && self.numbers == old(self).numbers),
                        self.follows(*old(self)),
                        *stmt is While,
                        (eval_pure(
                            old(self).numbers,
                            old(self).envs,
                            old(self).environment as nat,
                            *condition,
                        ) matches Some(Outcome::Value(v)) && !truthy_val(v)) ==> *self == *old(self),
                        *stmt matches Stmt::While(c, _) && c == *condition,
                    decreases self.steps,
                {
                    let ghost m0 = self.machine();
                    let ghost spec_here = loop_m(self.numbers, m0, *condition, **body);
                    let value = match self.evaluate(condition) {
                        Ok(v) => v,
                        Err(e) => {
                            proof {
                                if spec_loop is Some {
                                    assert(spec_here == spec_loop);
                                    assert(eval_m(self.numbers, m0, *condition) is Some);
                                    assert(spec_here matches Some((m, f)) && m == self.machine() && flow_is(Err(e), f));
                                }
                            }
                            return Err(e);
                        },
                    };
                    if !is_truthy(&value) {
                        proof {
                            if spec_loop is Some {
                                assert(eval_m(self.numbers, m0, *condition) is Some);
                                assert(spec_here == Some((self.machine(), Flow::Normal)));
                            }
                        }
                        return Ok(());
                    }
                    if self.steps == 0 {
                        return Err(step_limit_error());
                    }
                    self.steps = self.steps - 1;
                    match self.execute(body) {
                        Ok(()) => {},
                        Err(e) => return Err(e),
                    }
                }
            },
            Stmt::Function(name, parameter, body) => {
                self.visit_function_stmt(name, parameter, body);
                Ok(())
            },
            Stmt::Return(_keyword, value) => {
                let v = match value {
                    Expr::Null => Value::Nil,
                    _ => match self.evaluate(value) {
                        Ok(v) => v,
                        Err(e) => return Err(e),
                    },
                };
                Err(RuntimeError::Return(Return { value: v }))
            },
        }
    }
}

impl<'a, N: Numbers> Evaluate<'a, N> {
    /// Runs a program's top-level statements in order, up to the first runtime error. With
    /// `report` set, the value of each top-level expression statement is printed as well. A
    /// `return` at top level ends only its own statement.
    pub fn interpret(&mut self, statements: &'a Vec<Stmt>, report: bool) -> (r: Result<(), Error>)
        requires
            old(self).wf(),
        ensures
            final(self).follows(*old(self)),
            statements@.len() == 0 ==> r is Ok && *final(self) == *old(self),
            program_m(old(self).numbers, old(self).machine(), statements@, 0, report)
                matches Some((m, res)) ==> final(self).machine() == m && match res {
                None => r is Ok,
                Some((line, message)) => r matches Err(e) && e.line == line && e.message@ == message,
            },
    {
        if statements.len() == 0 {
            return Ok(());
        }
        let mut i: usize = 0;
        let ghost spec_run = program_m(self.numbers, self.machine(), statements@, 0, report);
        while i < statements.len()
            invariant
                self.follows(*old(self)),
                i <= statements@.len(),
                spec_run == program_m(old(self).numbers, old(self).machine(), statements@, 0, report),
                spec_run matches Some(res) ==> (program_m(self.numbers, self.machine(), statements@, i as int, report)
                    == Some(res) && self.numbers == old(self).numbers),
            decreases statements.len() - i,
        {
            let ghost m0 = self.machine();
            let outcome = match &statements[i] {
                Stmt::Expression(expr) => {
                    if report {
                        match self.evaluate(expr) {
                            Ok(value) => {
                                let text = self.stringify(&value);
                                let ghost printed = self.output@;
                                self.output.push(text);
                                assert(views(self.output@) =~= views(printed).push(text@));
                                Ok(())
                            },
                            Err(e) => Err(e),
                        }
                    } else {
                        self.execute(&statements[i])
                    }
                },
                other => self.execute(other),
            };
            match outcome {
                Err(RuntimeError::Error { message, line, token }) => {
                    return Err(Error { message, token, line });
                },
                _ => {},
            }
            i = i + 1;
        }
        Ok(())
    }
}

/// What a command prints: lines on standard output, lines on standard error, and the exit code.
pub struct RunReport {
    pub output: Vec<String>,
    pub errors: Vec<String>,
    pub exit_code: i32,
}

/// The text of a runtime error report.
pub open spec fn runtime_error_text(line: nat, message: Seq<char>) -> Seq<char> {
    "[line "@ + decimal(line) + "] Runtime Error: "@ + message
}

impl Error {
    /// The report of the error, `[line L] Runtime Error: <message>`.
    pub fn to_string(&self) -> (r: String)
        ensures
            r@ == runtime_error_text(self.line as nat, self.message@),
    {
        let mut text = owned("[line ");
        text.append(usize_to_string(self.line).as_str());
        text.append("] Runtime Error: ");
        text.append(self.message.as_str());
        text
    }
}

/// The report for an empty source file.
pub fn empty_source_report() -> (r: RunReport)
    ensures
        r.output@.len() == 1,
        r.output@[0]@ == "EOF  null"@,
        r.errors@.len() == 0,
        r.exit_code == 0,
{
    RunReport { output: vec![owned("EOF  null")], errors: Vec::new(), exit_code: 0 }
}

/// What a run of `source` gives, read against a scan `toks` of it: where the grammar finds a
/// syntax error, exit 65 or 70 with reports and no output; otherwise the output and the runtime
/// error, if any, of running the statements from the initial machine.
pub open spec fn run_outcome<N: Numbers>(
    numbers: N,
    source: Seq<char>,
    report: bool,
    r: RunReport,
    toks: Seq<Token>,
) -> bool {
    &&& scan_of(source, toks)
    &&& token_spans(toks.drop_last()) == spans(source, 0)
    &&& parse_program(toks, 0, !report, Seq::empty()) is None ==> (r.exit_code == 65 || r.exit_code
        == 70) && r.errors@.len() > 0 && r.output@.len() == 0
    &&& parse_program(toks, 0, !report, Seq::empty()) is Some ==> r.exit_code == 0 || (r.exit_code
        == 70 && r.errors@.len() == 1)
    &&& parse_program(toks, 0, !report, Seq::empty()) is Some ==> run_matches(
        numbers,
        report,
        r,
        parse_program(toks, 0, !report, Seq::empty())->0,
    )
}

/// Some statements of the structure `w` run, from the initial machine, to the output and
/// runtime error of `r`.
pub open spec fn run_matches<N: Numbers>(numbers: N, report: bool, r: RunReport, w: Seq<StmtShape>) -> bool {
    exists|stmts: Seq<Stmt>|
        #![trigger fits_stmts_from(stmts, w, 0)]
        stmts.len() == w.len() && fits_stmts_from(stmts, w, 0) && stmts_run_to(numbers, report, r, stmts)
}

/// Running `stmts` from the initial machine gives the output and runtime error of `r`, where
/// the run does not read the clock.
pub open spec fn stmts_run_to<N: Numbers>(numbers: N, report: bool, r: RunReport, stmts: Seq<Stmt>) -> bool {
    match program_m(numbers, initial_machine(), stmts, 0, report) {
        Some((m, res)) => views(r.output@) == m.output && match res {
            None => r.exit_code == 0 && r.errors@.len() == 0,
            Some((line, message)) => r.exit_code == 70 && views(r.errors@) == seq![
                runtime_error_text(line, message),
            ],
        },
        None => true,
    }
}

/// Scans, parses and runs `source`. With `report` set (the `evaluate` command) expression
/// statements need no `;` and the value of each top-level one is printed; otherwise (the
/// `run` command) only `print` writes. Exit code 65 after a lexical or syntax error (70 for
/// the declaration errors that call for it), 70 after a runtime error, 0 otherwise.
/// Loops and calls spend from a budget of `u64::MAX` steps; a run that spends it all ends with
/// the runtime error "Step limit reached." at line 0, which no real program reaches.
pub fn evaluate<N: Numbers>(source: &str, report: bool, numbers: N) -> (r: RunReport)
    requires
        source@.len() < usize::MAX,
    ensures
        source@.len() == 0 ==> r.output@.len() == 1 && r.output@[0]@ == "EOF  null"@
            && r.exit_code == 0,
        r.exit_code == 0 || r.exit_code == 65 || r.exit_code == 70,
        r.exit_code == 0 <==> r.errors@.len() == 0,
        r.exit_code == 65 ==> r.output@.len() == 0,
        source@.len() > 0 && error_count(source@, 0) > 0 ==> r.exit_code == 65
            && r.errors@.len() == error_count(source@, 0) && views(r.errors@) == error_texts(
            source@,
            0,
        ) && r.output@.len() == 0,
        source@.len() > 0 && error_count(source@, 0) == 0 ==> exists|toks: Seq<Token>|
            #[trigger] run_outcome(numbers, source@, report, r, toks),
{
    let chars = chars_of(source);
    if chars.len() == 0 {
        return empty_source_report();
    }
    let tokens = match return_tokens(source) {
        Ok(tokens) => tokens,
        Err(errors) => {
            return RunReport { output: Vec::new(), errors, exit_code: 65 };
        },
    };
    let mut parser = Parser::new(tokens, !report);
    let statements = parser.parse();
    if parser.had_error {
        let code = if parser.error == 70 {
            70
        } else {
            65
        };
        let r = RunReport { output: Vec::new(), errors: parser.errors, exit_code: code };
        assert(run_outcome(numbers, source@, report, r, parser.tokens@));
        return r;
    }
    let ghost toks = parser.tokens@;
    let ghost w = parse_program(toks, 0, !report, Seq::empty())->0;
    let mut interpreter = Evaluate::new(numbers);
    interpreter.define_globals();
    assert(interpreter.machine() == initial_machine()) by {
        assert(views(interpreter.output@) =~= Seq::<Seq<char>>::empty());
        assert(interpreter.machine().functions =~= Seq::<SFun>::empty());
    }
    assert(interpreter.functions@ =~= Seq::<LoxFunction>::empty());
    let ghost run = program_m(numbers, initial_machine(), statements@, 0, report);
    let r = match interpreter.interpret(&statements, report) {
        Ok(()) => RunReport { output: interpreter.output, errors: Vec::new(), exit_code: 0 },
        Err(error) => {
            let text = error.to_string();
            let errors = vec![text];
            assert(views(errors@) =~= seq![text@]);
            RunReport { output: interpreter.output, errors, exit_code: 70 }
        },
    };
    assert(scan_of(source@, toks));
    proof {
        assert(token_spans(toks.drop_last()) == spans(source@, 0));
        assert(parse_program(toks, 0, !report, Seq::empty()) is Some);
        assert(r.exit_code == 0 || (r.exit_code == 70 && r.errors@.len() == 1));
        if parse_program(toks, 0, !report, Seq::empty()) is Some {
            assert(statements@.len() == w.len() && fits_stmts_from(statements@, w, 0));
            match run {
                Some((m, res)) => {
                    assert(views(r.output@) == m.output);
                    match res {
                        None => {
                            assert(r.exit_code == 0 && r.errors@.len() == 0);
                        },
                        Some((line, message)) => {
                            assert(r.exit_code == 70);
                            assert(views(r.errors@) == seq![runtime_error_text(line, message)]);
                        },
                    }
                },
                None => {},
            }
        }
        match parse_program(toks, 0, !report, Seq::empty()) {
            Some(w2) => {
                assert(w2 == w);
                assert(statements@.len() == w2.len() && fits_stmts_from(statements@, w2, 0));
                assert(stmts_run_to(numbers, report, r, statements@));
                assert(run_matches(numbers, report, r, w2));
            },
            None => {},
        }
    }
    assert(run_outcome(numbers, source@, report, r, toks));
    r
}

} // verus!
