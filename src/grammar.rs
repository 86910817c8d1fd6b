use vstd::prelude::*;
use crate::lexer::{Literal, Token, TokenType};
use crate::parse::{for_form, Expr, Stmt};

verus! {

/// The structure of an expression, with the arguments of a call as a sequence.
pub enum Shape {
    Assign(Token, Box<Shape>),
    Binary(Box<Shape>, Token, Box<Shape>),
    Call(Box<Shape>, Token, Seq<Shape>),
    Grouping(Box<Shape>),
    Literal(Literal),
    Logical(Box<Shape>, Token, Box<Shape>),
    Unary(Token, Box<Shape>),
    Variable(Token),
    Null,
}

/// `e` has the structure `s`.
pub open spec fn fits(e: Expr, s: Shape) -> bool
    decreases e, 0int,
{
    match e {
        Expr::Assign { name, value } => match s {
            Shape::Assign(n, v) => name == n && fits(*value, *v),
            _ => false,
        },
        Expr::Binary { left, operator, right } => match s {
            Shape::Binary(l, o, r) => operator == o && fits(*left, *l) && fits(*right, *r),
            _ => false,
        },
        Expr::Call { callee, paren, arguments } => match s {
            Shape::Call(c, p, a) => paren == p && fits(*callee, *c) && arguments@.len() == a.len()
                && fits_from(arguments@, a, 0),
            _ => false,
        },
        Expr::Grouping { expression } => match s {
            Shape::Grouping(x) => fits(*expression, *x),
            _ => false,
        },
        Expr::Literal { value } => s == Shape::Literal(value),
        Expr::Logical { left, operator, right } => match s {
            Shape::Logical(l, o, r) => operator == o && fits(*left, *l) && fits(*right, *r),
            _ => false,
        },
        Expr::Unary { operator, right } => match s {
            Shape::Unary(o, r) => operator == o && fits(*right, *r),
            _ => false,
        },
        Expr::Variable { name } => s == Shape::Variable(name),
        Expr::Null => s == Shape::Null,
    }
}

/// The expression that a parse result holds.
/// Each of `args` from the `k`-th on has the structure of the shape at the same place.
pub open spec fn fits_from(args: Seq<Expr>, shapes: Seq<Shape>, k: int) -> bool
    decreases args, args.len() - k,
{
    if k < 0 || k >= args.len() || k >= shapes.len() {
        true
    } else {
        fits(args[k], shapes[k]) && fits_from(args, shapes, k + 1)
    }
}

proof fn lemma_fits_from(args: Seq<Expr>, shapes: Seq<Shape>, k: int)
    requires
        0 <= k <= args.len(),
        args.len() == shapes.len(),
        forall|j: int| k <= j < args.len() ==> #[trigger] fits(args[j], shapes[j]),
    ensures
        fits_from(args, shapes, k),
    decreases args.len() - k,
{
    if k < args.len() {
        assert(fits(args[k], shapes[k]));
        lemma_fits_from(args, shapes, k + 1);
    }
}

pub open spec fn shape_of(o: Option<(Shape, int)>) -> Shape {
    match o {
        Some((s, _)) => s,
        None => Shape::Null,
    }
}

/// A call fits a call shape whose parts it fits.
pub proof fn lemma_call_fits(e: Expr, s: Shape)
    requires
        e is Call,
        s is Call,
        e->Call_paren == s->Call_1,
        fits(*e->Call_callee, *s->Call_0),
        e->Call_arguments@.len() == s->Call_2.len(),
        forall|k: int|
            0 <= k < s->Call_2.len() ==> #[trigger] fits(e->Call_arguments@[k], s->Call_2[k]),
    ensures
        fits(e, s),
{
    lemma_fits_from(e->Call_arguments@, s->Call_2, 0);
}

pub open spec fn kind_at(t: Seq<Token>, i: int) -> TokenType {
    t[i].token_type
}

/// The operators of a binary precedence level: 8 `or`, 7 `and`, 6 equality, 5 comparison,
/// 4 addition, 3 multiplication.
pub open spec fn level_operator(level: nat, k: TokenType) -> bool {
    if level == 8 {
        k == TokenType::OR
    } else if level == 7 {
        k == TokenType::AND
    } else if level == 6 {
        k == TokenType::BANG_EQUAL || k == TokenType::EQUAL_EQUAL
    } else if level == 5 {
        k == TokenType::GREATER || k == TokenType::GREATER_EQUAL || k == TokenType::LESS || k
            == TokenType::LESS_EQUAL
    } else if level == 4 {
        k == TokenType::MINUS || k == TokenType::PLUS
    } else {
        k == TokenType::SLASH || k == TokenType::STAR
    }
}

/// Two operands joined by an operator of a level: `and` / `or` are logical, the rest binary.
pub open spec fn join(level: nat, left: Shape, op: Token, right: Shape) -> Shape {
    if level >= 7 {
        Shape::Logical(Box::new(left), op, Box::new(right))
    } else {
        Shape::Binary(Box::new(left), op, Box::new(right))
    }
}

/// `primary → "true" | "false" | "nil" | NUMBER | STRING | IDENT | "(" expression ")"`: the
/// expression parsed at `i` and the position after it, `None` on a syntax error.
pub open spec fn parse_primary(t: Seq<Token>, i: int) -> Option<(Shape, int)>
    decreases t.len() - i, 0nat,
{
    if !(0 <= i < t.len()) {
        None
    } else {
        let k = kind_at(t, i);
        if k == TokenType::FALSE {
            Some((Shape::Literal(Literal::Boolean(false)), i + 1))
        } else if k == TokenType::TRUE {
            Some((Shape::Literal(Literal::Boolean(true)), i + 1))
        } else if k == TokenType::NIL {
            Some((Shape::Literal(Literal::Nothing), i + 1))
        } else if k == TokenType::NUMBER {
            Some((Shape::Literal(Literal::Number(t[i].lexeme)), i + 1))
        } else if k == TokenType::STRING {
            Some(
                (
                    Shape::Literal(
                        Literal::String(
                            match t[i].literal {
                                Literal::String(s) => s,
                                _ => t[i].lexeme,
                            },
                        ),
                    ),
                    i + 1,
                ),
            )
        } else if k == TokenType::IDENTIFIER {
            Some((Shape::Variable(t[i]), i + 1))
        } else if k == TokenType::LEFT_PAREN {
            match parse_expression(t, i + 1) {
                Some((e, j)) => if 0 <= j < t.len() && kind_at(t, j) == TokenType::RIGHT_PAREN {
                    Some((Shape::Grouping(Box::new(e)), j + 1))
                } else {
                    None
                },
                None => None,
            }
        } else {
            None
        }
    }
}

/// `call → primary ("(" arguments? ")")*`.
pub open spec fn parse_call(t: Seq<Token>, i: int) -> Option<(Shape, int)>
    decreases t.len() - i, 1nat,
{
    match parse_primary(t, i) {
        Some((e, j)) => if i < j <= t.len() {
            parse_call_rest(t, j, e)
        } else {
            None
        },
        None => None,
    }
}

/// The calls that follow `callee`, from `j`.
pub open spec fn parse_call_rest(t: Seq<Token>, j: int, callee: Shape) -> Option<(Shape, int)>
    decreases t.len() - j, 0nat,
{
    if 0 <= j < t.len() && kind_at(t, j) == TokenType::LEFT_PAREN {
        match parse_finish_call(t, j + 1, callee) {
            Some((c, k)) => if j < k <= t.len() {
                parse_call_rest(t, k, c)
            } else {
                None
            },
            None => None,
        }
    } else {
        Some((callee, j))
    }
}

/// The arguments of a call and its `)`, from just after its `(`.
pub open spec fn parse_finish_call(t: Seq<Token>, i: int, callee: Shape) -> Option<(Shape, int)>
    decreases t.len() - i, 13nat,
{
    if !(0 <= i < t.len()) {
        None
    } else if kind_at(t, i) == TokenType::RIGHT_PAREN {
        Some((Shape::Call(Box::new(callee), t[i], Seq::empty()), i + 1))
    } else {
        parse_arguments(t, i, callee, Seq::empty())
    }
}

/// The remaining arguments of a call, after `args`, from `i`: at most 255 in all.
pub open spec fn parse_arguments(t: Seq<Token>, i: int, callee: Shape, args: Seq<Shape>) -> Option<
    (Shape, int),
>
    decreases t.len() - i, 12nat,
{
    if args.len() >= 255 || !(0 <= i < t.len()) {
        None
    } else {
        match parse_expression(t, i) {
            Some((a, j)) => if i < j && j < t.len() {
                if kind_at(t, j) == TokenType::COMMA {
                    parse_arguments(t, j + 1, callee, args.push(a))
                } else if kind_at(t, j) == TokenType::RIGHT_PAREN {
                    Some((Shape::Call(Box::new(callee), t[j], args.push(a)), j + 1))
                } else {
                    None
                }
            } else {
                None
            },
            None => None,
        }
    }
}

/// Whether the arguments of a call from `i`, after `n` of them, run past 255 before the list
/// ends or meets a syntax error.
pub open spec fn args_overflow(t: Seq<Token>, i: int, n: nat) -> bool
    decreases t.len() - i,
{
    if n >= 255 {
        true
    } else {
        match parse_expression(t, i) {
            Some((_, j)) => i < j < t.len() && kind_at(t, j) == TokenType::COMMA && args_overflow(
                t,
                j + 1,
                n + 1,
            ),
            None => false,
        }
    }
}

/// Whether the parameters of a function from `i`, after `n` of them, run past 255 before the
/// list ends or meets a syntax error.
pub open spec fn params_overflow(t: Seq<Token>, i: int, n: nat) -> bool
    decreases t.len() - i,
{
    if n >= 255 {
        true
    } else if !(0 <= i && i + 1 < t.len()) || kind_at(t, i) != TokenType::IDENTIFIER {
        false
    } else if kind_at(t, i + 1) == TokenType::COMMA {
        params_overflow(t, i + 2, n + 1)
    } else {
        false
    }
}

/// `unary → ("!" | "-") unary | call`.
pub open spec fn parse_unary(t: Seq<Token>, i: int) -> Option<(Shape, int)>
    decreases t.len() - i, 2nat,
{
    if !(0 <= i < t.len()) {
        None
    } else if kind_at(t, i) == TokenType::BANG || kind_at(t, i) == TokenType::MINUS {
        match parse_unary(t, i + 1) {
            Some((r, j)) => Some((Shape::Unary(t[i], Box::new(r)), j)),
            None => None,
        }
    } else {
        parse_call(t, i)
    }
}

/// A binary precedence level: operands of the level below joined, left to right, by the
/// level's operators.
pub open spec fn parse_binary(t: Seq<Token>, i: int, level: nat) -> Option<(Shape, int)>
    decreases t.len() - i, level,
{
    if !(0 <= i < t.len()) || level < 3 {
        None
    } else {
        let operand = if level == 3 {
            parse_unary(t, i)
        } else {
            parse_binary(t, i, (level - 1) as nat)
        };
        match operand {
            Some((e, j)) => if i < j <= t.len() {
                parse_binary_rest(t, j, e, level)
            } else {
                None
            },
            None => None,
        }
    }
}

/// The operators and operands of a level that follow `left`, from `j`.
pub open spec fn parse_binary_rest(t: Seq<Token>, j: int, left: Shape, level: nat) -> Option<
    (Shape, int),
>
    decreases t.len() - j, 0nat,
{
    if 0 <= j < t.len() && level_operator(level, kind_at(t, j)) {
        let operand = if level == 3 {
            parse_unary(t, j + 1)
        } else {
            parse_binary(t, j + 1, (level - 1) as nat)
        };
        match operand {
            Some((r, k)) => if j < k <= t.len() {
                parse_binary_rest(t, k, join(level, left, t[j], r), level)
            } else {
                None
            },
            None => None,
        }
    } else {
        Some((left, j))
    }
}

/// `assignment → IDENT "=" assignment | logic_or`; after a `=`, a left side that is no
/// variable is an error.
pub open spec fn parse_assignment(t: Seq<Token>, i: int) -> Option<(Shape, int)>
    decreases t.len() - i, 9nat,
{
    match parse_binary(t, i, 8) {
        Some((e, j)) => if 0 <= i < j && j < t.len() && kind_at(t, j) == TokenType::EQUAL {
            match parse_assignment(t, j + 1) {
                Some(_) if !(e is Variable) => None,
                Some((v, k)) => Some(
                    (
                        Shape::Assign(e->Variable_0, Box::new(v)),
                        k,
                    ),
                ),
                None => None,
            }
        } else {
            Some((e, j))
        },
        None => None,
    }
}

/// `expression → assignment`: the expression that the tokens spell from `i`, and the
/// position after it; `None` on a syntax error.
pub open spec fn parse_expression(t: Seq<Token>, i: int) -> Option<(Shape, int)>
    decreases t.len() - i, 10nat,
{
    if !(0 <= i < t.len()) {
        None
    } else {
        parse_assignment(t, i)
    }
}


/// The structure of a statement, with the statements of a block or body as a sequence.
pub enum StmtShape {
    Block(Seq<StmtShape>),
    Expression(Shape),
    Function(Token, Seq<Token>, Seq<StmtShape>),
    If(Shape, Box<StmtShape>),
    IfElse(Shape, Box<StmtShape>, Box<StmtShape>),
    Print(Shape),
    Return(Token, Shape),
    Var(Token, Shape),
    While(Shape, Box<StmtShape>),
}

/// `s` has the structure `ss`.
pub open spec fn fits_stmt(s: Stmt, ss: StmtShape) -> bool
    decreases s, 0int,
{
    match s {
        Stmt::Block(v) => match ss {
            StmtShape::Block(w) => v@.len() == w.len() && fits_stmts_from(v@, w, 0),
            _ => false,
        },
        Stmt::Expression(e) => match ss {
            StmtShape::Expression(x) => fits(e, x),
            _ => false,
        },
        Stmt::Function(name, params, body) => match ss {
            StmtShape::Function(n, ps, w) => name == n && params@ == ps && body@.len() == w.len()
                && fits_stmts_from(body@, w, 0),
            _ => false,
        },
        Stmt::If(c, then_branch, else_branch) => match *else_branch {
            Some(e) => match ss {
                StmtShape::IfElse(sc, st, se) => fits(c, sc) && fits_stmt(*then_branch, *st)
                    && fits_stmt(e, *se),
                _ => false,
            },
            None => match ss {
                StmtShape::If(sc, st) => fits(c, sc) && fits_stmt(*then_branch, *st),
                _ => false,
            },
        },
        Stmt::Print(e) => match ss {
            StmtShape::Print(x) => fits(e, x),
            _ => false,
        },
        Stmt::Return(k, e) => match ss {
            StmtShape::Return(sk, x) => k == sk && fits(e, x),
            _ => false,
        },
        Stmt::Var(n, e) => match ss {
            StmtShape::Var(sn, x) => n == sn && fits(e, x),
            _ => false,
        },
        Stmt::While(c, b) => match ss {
            StmtShape::While(sc, sb) => fits(c, sc) && fits_stmt(*b, *sb),
            _ => false,
        },
    }
}

/// Each of `v` from the `k`-th on has the structure of the shape at the same place.
pub open spec fn fits_stmts_from(v: Seq<Stmt>, w: Seq<StmtShape>, k: int) -> bool
    decreases v, v.len() - k,
{
    if k < 0 || k >= v.len() || k >= w.len() {
        true
    } else {
        fits_stmt(v[k], w[k]) && fits_stmts_from(v, w, k + 1)
    }
}

pub proof fn lemma_fits_stmts(v: Seq<Stmt>, w: Seq<StmtShape>, k: int)
    requires
        0 <= k <= v.len(),
        v.len() == w.len(),
        forall|j: int| k <= j < v.len() ==> #[trigger] fits_stmt(v[j], w[j]),
    ensures
        fits_stmts_from(v, w, k),
    decreases v.len() - k,
{
    if k < v.len() {
        assert(fits_stmt(v[k], w[k]));
        lemma_fits_stmts(v, w, k + 1);
    }
}

/// The structure of `for (init; cond; incr) body` lowered to a `while` loop.
pub open spec fn for_shape(
    initializer: Option<StmtShape>,
    condition: Option<Shape>,
    increment: Option<Shape>,
    body: StmtShape,
) -> StmtShape {
    let inner = match increment {
        Some(e) => StmtShape::Block(seq![body, StmtShape::Expression(e)]),
        None => body,
    };
    let cond = match condition {
        Some(c) => c,
        None => Shape::Literal(Literal::Boolean(true)),
    };
    let looped = StmtShape::While(cond, Box::new(inner));
    match initializer {
        Some(init) => StmtShape::Block(seq![init, looped]),
        None => looped,
    }
}

/// An optional statement has the structure of an optional shape.
pub open spec fn fits_opt_stmt(s: Option<Stmt>, ss: Option<StmtShape>) -> bool {
    match (s, ss) {
        (Some(a), Some(b)) => fits_stmt(a, b),
        (None, None) => true,
        _ => false,
    }
}

/// An optional expression has the structure of an optional shape.
pub open spec fn fits_opt(e: Option<Expr>, s: Option<Shape>) -> bool {
    match (e, s) {
        (Some(a), Some(b)) => fits(a, b),
        (None, None) => true,
        _ => false,
    }
}

/// The lowering of a `for` loop has the lowered structure of its parts.
pub proof fn lemma_for_fits(
    r: Stmt,
    initializer: Option<Stmt>,
    condition: Option<Expr>,
    increment: Option<Expr>,
    body: Stmt,
    si: Option<StmtShape>,
    sc: Option<Shape>,
    sn: Option<Shape>,
    sb: StmtShape,
)
    requires
        for_form(r, initializer, condition, increment, body),
        fits_opt_stmt(initializer, si),
        fits_opt(condition, sc),
        fits_opt(increment, sn),
        fits_stmt(body, sb),
    ensures
        fits_stmt(r, for_shape(si, sc, sn, sb)),
{
    let looped = match initializer {
        Some(_) => r->Block_0@[1],
        None => r,
    };
    let inner = *looped->While_1;
    let lw = match sc {
        Some(c) => c,
        None => Shape::Literal(Literal::Boolean(true)),
    };
    let inner_shape = match sn {
        Some(e) => StmtShape::Block(seq![sb, StmtShape::Expression(e)]),
        None => sb,
    };
    match increment {
        Some(n) => {
            let v = inner->Block_0@;
            let w = seq![sb, StmtShape::Expression(sn->0)];
            assert(fits_stmt(v[1], w[1]));
            lemma_fits_stmts(v, w, 0);
        },
        None => {},
    }
    assert(fits_stmt(inner, inner_shape));
    assert(fits(looped->While_0, lw));
    assert(fits_stmt(looped, StmtShape::While(lw, Box::new(inner_shape))));
    match initializer {
        Some(init) => {
            let v = r->Block_0@;
            let w = seq![si->0, StmtShape::While(lw, Box::new(inner_shape))];
            assert(fits_stmt(v[1], w[1]));
            lemma_fits_stmts(v, w, 0);
        },
        None => {},
    }
}

/// The statement that a parse result holds.
pub open spec fn shape_of_stmt(o: Option<(StmtShape, int)>) -> StmtShape {
    match o {
        Some((s, _)) => s,
        None => StmtShape::Block(Seq::empty()),
    }
}

/// The statements that a block's parse result holds.
pub open spec fn shape_of_block(o: Option<(Seq<StmtShape>, int)>) -> Seq<StmtShape> {
    match o {
        Some((s, _)) => s,
        None => Seq::empty(),
    }
}

/// Where `r` is a statement and no error was reported since `errors_before`, it has the
/// structure that `spec` gives and `p` stands just after it.
pub open spec fn stmt_parsed_as(
    r: Option<Stmt>,
    spec: Option<(StmtShape, int)>,
    p: crate::parse::Parser,
    errors_before: nat,
) -> bool {
    r is Some && p.errors@.len() == errors_before ==> (spec matches Some((ss, j)) && fits_stmt(
        r->0,
        ss,
    ) && p.current == j)
}

/// The statement parsed at `i` and the position after it, where parsing goes through without a
/// syntax error; `None` where it meets one. `evaluate` says whether expression statements need
/// their `;`.
pub open spec fn parse_declaration(t: Seq<Token>, i: int, evaluate: bool) -> Option<(StmtShape, int)>
    decreases t.len() - i, 15nat,
{
    if !(0 <= i < t.len()) {
        None
    } else if kind_at(t, i) == TokenType::FUN {
        parse_function(t, i + 1, evaluate)
    } else if kind_at(t, i) == TokenType::VAR {
        parse_var(t, i + 1)
    } else {
        parse_statement(t, i, evaluate)
    }
}

/// The parameters of a function, after `params` and from `i`, up to its `)`: at most 255.
pub open spec fn parse_params(t: Seq<Token>, i: int, params: Seq<Token>) -> Option<(Seq<Token>, int)>
    decreases t.len() - i,
{
    if !(0 <= i < t.len()) || params.len() >= 255 || kind_at(t, i) != TokenType::IDENTIFIER
        || i + 1 >= t.len() {
        None
    } else if kind_at(t, i + 1) == TokenType::COMMA {
        parse_params(t, i + 2, params.push(t[i]))
    } else if kind_at(t, i + 1) == TokenType::RIGHT_PAREN {
        Some((params.push(t[i]), i + 2))
    } else {
        None
    }
}

/// A function's name, parameters and body, after `fun`.
pub open spec fn parse_function(t: Seq<Token>, i: int, evaluate: bool) -> Option<(StmtShape, int)>
    decreases t.len() - i, 14nat,
{
    if !(0 <= i && i + 2 < t.len()) || kind_at(t, i) != TokenType::IDENTIFIER || kind_at(t, i + 1)
        != TokenType::LEFT_PAREN {
        None
    } else {
        let params = if kind_at(t, i + 2) == TokenType::RIGHT_PAREN {
            Some((Seq::<Token>::empty(), i + 3))
        } else {
            parse_params(t, i + 2, Seq::empty())
        };
        match params {
            Some((ps, j)) => if i < j < t.len() && kind_at(t, j) == TokenType::LEFT_BRACE {
                match parse_block(t, j + 1, evaluate) {
                    Some((body, k)) => Some((StmtShape::Function(t[i], ps, body), k)),
                    None => None,
                }
            } else {
                None
            },
            None => None,
        }
    }
}

/// `var IDENT ("=" expression)? ";"`, after `var`.
pub open spec fn parse_var(t: Seq<Token>, i: int) -> Option<(StmtShape, int)>
    decreases t.len() - i, 14nat,
{
    if !(0 <= i && i + 1 < t.len()) || kind_at(t, i) != TokenType::IDENTIFIER {
        None
    } else if kind_at(t, i + 1) == TokenType::EQUAL {
        match parse_expression(t, i + 2) {
            Some((e, j)) => if 0 <= j < t.len() && kind_at(t, j) == TokenType::SEMICOLON {
                Some((StmtShape::Var(t[i], e), j + 1))
            } else {
                None
            },
            None => None,
        }
    } else if kind_at(t, i + 1) == TokenType::SEMICOLON {
        Some((StmtShape::Var(t[i], Shape::Null), i + 2))
    } else {
        None
    }
}

/// A statement that is no declaration.
pub open spec fn parse_statement(t: Seq<Token>, i: int, evaluate: bool) -> Option<(StmtShape, int)>
    decreases t.len() - i, 14nat,
{
    if !(0 <= i < t.len()) {
        None
    } else {
        let k = kind_at(t, i);
        if k == TokenType::IF {
            parse_if(t, i + 1, evaluate)
        } else if k == TokenType::PRINT {
            parse_print(t, i + 1)
        } else if k == TokenType::WHILE {
            parse_while(t, i + 1, evaluate)
        } else if k == TokenType::RETURN {
            parse_return(t, i + 1)
        } else if k == TokenType::FOR {
            parse_for(t, i + 1, evaluate)
        } else if k == TokenType::LEFT_BRACE {
            match parse_block(t, i + 1, evaluate) {
                Some((v, j)) => Some((StmtShape::Block(v), j)),
                None => None,
            }
        } else {
            parse_expression_statement(t, i, evaluate)
        }
    }
}

/// An expression statement; its `;` is needed only with `evaluate`.
pub open spec fn parse_expression_statement(t: Seq<Token>, i: int, evaluate: bool) -> Option<
    (StmtShape, int),
>
    decreases t.len() - i, 12nat,
{
    if !(0 <= i < t.len()) {
        None
    } else {
        match parse_expression(t, i) {
            Some((e, j)) => if !(0 <= j < t.len()) {
                None
            } else if kind_at(t, j) == TokenType::SEMICOLON {
                Some((StmtShape::Expression(e), j + 1))
            } else if evaluate {
                None
            } else {
                Some((StmtShape::Expression(e), j))
            },
            None => None,
        }
    }
}

/// `print expression ";"`, after `print`.
pub open spec fn parse_print(t: Seq<Token>, i: int) -> Option<(StmtShape, int)>
    decreases t.len() - i, 13nat,
{
    if !(0 <= i < t.len()) {
        None
    } else {
        match parse_expression(t, i) {
            Some((e, j)) => if 0 <= j < t.len() && kind_at(t, j) == TokenType::SEMICOLON {
                Some((StmtShape::Print(e), j + 1))
            } else {
                None
            },
            None => None,
        }
    }
}

/// `return expression? ";"`, after `return`.
pub open spec fn parse_return(t: Seq<Token>, i: int) -> Option<(StmtShape, int)>
    decreases t.len() - i, 13nat,
{
    if !(1 <= i < t.len()) {
        None
    } else if kind_at(t, i) == TokenType::SEMICOLON {
        Some((StmtShape::Return(t[i - 1], Shape::Null), i + 1))
    } else {
        match parse_expression(t, i) {
            Some((e, j)) => if 0 <= j < t.len() && kind_at(t, j) == TokenType::SEMICOLON {
                Some((StmtShape::Return(t[i - 1], e), j + 1))
            } else {
                None
            },
            None => None,
        }
    }
}

/// `while (cond) body`, after `while`.
pub open spec fn parse_while(t: Seq<Token>, i: int, evaluate: bool) -> Option<(StmtShape, int)>
    decreases t.len() - i, 13nat,
{
    if !(0 <= i < t.len()) || kind_at(t, i) != TokenType::LEFT_PAREN {
        None
    } else {
        match parse_expression(t, i + 1) {
            Some((c, j)) => if i < j < t.len() && kind_at(t, j) == TokenType::RIGHT_PAREN {
                match parse_statement(t, j + 1, evaluate) {
                    Some((b, k)) => Some((StmtShape::While(c, Box::new(b)), k)),
                    None => None,
                }
            } else {
                None
            },
            None => None,
        }
    }
}

/// `if (cond) then (else other)?`, after `if`.
pub open spec fn parse_if(t: Seq<Token>, i: int, evaluate: bool) -> Option<(StmtShape, int)>
    decreases t.len() - i, 13nat,
{
    if !(0 <= i < t.len()) || kind_at(t, i) != TokenType::LEFT_PAREN {
        None
    } else {
        match parse_expression(t, i + 1) {
            Some((c, j)) => if i < j < t.len() && kind_at(t, j) == TokenType::RIGHT_PAREN {
                match parse_statement(t, j + 1, evaluate) {
                    Some((b, k)) => if j < k < t.len() && kind_at(t, k) == TokenType::ELSE {
                        match parse_statement(t, k + 1, evaluate) {
                            Some((e, m)) => Some(
                                (StmtShape::IfElse(c, Box::new(b), Box::new(e)), m),
                            ),
                            None => None,
                        }
                    } else {
                        Some((StmtShape::If(c, Box::new(b)), k))
                    },
                    None => None,
                }
            } else {
                None
            },
            None => None,
        }
    }
}

/// `for (init; cond; incr) body`, after `for`, as its `while` loop.
pub open spec fn parse_for(t: Seq<Token>, i: int, evaluate: bool) -> Option<(StmtShape, int)>
    decreases t.len() - i, 13nat,
{
    if !(0 <= i && i + 1 < t.len()) || kind_at(t, i) != TokenType::LEFT_PAREN {
        None
    } else {
        let init = if kind_at(t, i + 1) == TokenType::SEMICOLON {
            Some((None::<StmtShape>, i + 2))
        } else if kind_at(t, i + 1) == TokenType::VAR {
            match parse_var(t, i + 2) {
                Some((v, j)) => Some((Some(v), j)),
                None => None,
            }
        } else {
            match parse_expression_statement(t, i + 1, evaluate) {
                Some((e, j)) => Some((Some(e), j)),
                None => None,
            }
        };
        match init {
            Some((initializer, j)) => if !(i < j < t.len()) {
                None
            } else {
                parse_for_rest(t, j, evaluate, initializer)
            },
            None => None,
        }
    }
}

/// The condition, increment and body of a `for` loop after its initializer, from `j`, as the
/// `while` loop they lower to.
pub open spec fn parse_for_rest(
    t: Seq<Token>,
    j: int,
    evaluate: bool,
    initializer: Option<StmtShape>,
) -> Option<(StmtShape, int)>
    decreases t.len() - j, 12nat,
{
    if !(0 <= j < t.len()) {
        None
    } else {
        let cond = if kind_at(t, j) == TokenType::SEMICOLON {
            Some((None::<Shape>, j))
        } else {
            match parse_expression(t, j) {
                Some((c, j2)) => Some((Some(c), j2)),
                None => None,
            }
        };
        match cond {
            Some((condition, j2)) => if !(j <= j2 && j2 + 1 < t.len()) || kind_at(t, j2)
                != TokenType::SEMICOLON {
                None
            } else {
                let j3 = j2 + 1;
                let incr = if kind_at(t, j3) == TokenType::RIGHT_PAREN {
                    Some((None::<Shape>, j3))
                } else {
                    match parse_expression(t, j3) {
                        Some((n, j4)) => Some((Some(n), j4)),
                        None => None,
                    }
                };
                match incr {
                    Some((increment, j4)) => if !(j3 <= j4 < t.len()) || kind_at(t, j4)
                        != TokenType::RIGHT_PAREN {
                        None
                    } else {
                        match parse_statement(t, j4 + 1, evaluate) {
                            Some((b, k)) => Some(
                                (for_shape(initializer, condition, increment, b), k),
                            ),
                            None => None,
                        }
                    },
                    None => None,
                }
            },
            None => None,
        }
    }
}

/// The declarations of a block and its `}`, from just after its `{`.
pub open spec fn parse_block(t: Seq<Token>, i: int, evaluate: bool) -> Option<(Seq<StmtShape>, int)>
    decreases t.len() - i, 17nat,
{
    parse_block_rest(t, i, evaluate, Seq::empty())
}

/// The rest of a block, after the declarations `done`, from `i`.
pub open spec fn parse_block_rest(t: Seq<Token>, i: int, evaluate: bool, done: Seq<StmtShape>) -> Option<
    (Seq<StmtShape>, int),
>
    decreases t.len() - i, 16nat,
{
    if !(0 <= i < t.len()) || kind_at(t, i) == TokenType::EOF {
        None
    } else if kind_at(t, i) == TokenType::RIGHT_BRACE {
        Some((done, i + 1))
    } else {
        match parse_declaration(t, i, evaluate) {
            Some((s, j)) => if i < j <= t.len() {
                parse_block_rest(t, j, evaluate, done.push(s))
            } else {
                None
            },
            None => None,
        }
    }
}

/// The declarations of a whole program from `i`, after `done`, where it parses without a
/// syntax error.
pub open spec fn parse_program(t: Seq<Token>, i: int, evaluate: bool, done: Seq<StmtShape>) -> Option<
    Seq<StmtShape>,
>
    decreases t.len() - i,
{
    if !(0 <= i < t.len()) {
        None
    } else if kind_at(t, i) == TokenType::EOF {
        Some(done)
    } else {
        match parse_declaration(t, i, evaluate) {
            Some((s, j)) => if i < j <= t.len() {
                parse_program(t, j, evaluate, done.push(s))
            } else {
                None
            },
            None => None,
        }
    }
}

/// Parsing is deterministic. For a parser with no error reported yet, `Parser::parse` sets
/// its error flag exactly when `parse_program` finds a syntax error, and otherwise returns
/// statements of the structure `parse_program` gives; each expression the parser returns has
/// the structure `parse_expression` gives. These are functions of the tokens alone: identical
/// token lists, read with the same setting, give the same error flag and, without an error,
/// statements of identical structure.
pub proof fn lemma_parse_deterministic(t1: Seq<Token>, t2: Seq<Token>, evaluate: bool)
    requires
        t1 == t2,
    ensures
        parse_program(t1, 0, evaluate, Seq::empty()) == parse_program(t2, 0, evaluate, Seq::empty()),
        forall|i: int| parse_expression(t1, i) == parse_expression(t2, i),
{
}

} // verus!
