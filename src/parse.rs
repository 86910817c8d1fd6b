use vstd::prelude::*;
use crate::evaluate::{empty_source_report, RunReport};
use crate::grammar::{
    fits, join, level_operator, parse_binary, parse_binary_rest, parse_call, parse_call_rest,
    parse_expression, parse_finish_call, parse_arguments, parse_primary, parse_unary,
    parse_assignment, shape_of, lemma_call_fits, Shape, StmtShape, fits_stmt, fits_stmts_from,
    lemma_fits_stmts, lemma_for_fits, parse_block, parse_block_rest, parse_declaration,
    parse_expression_statement, parse_for, parse_function, parse_if, parse_params, parse_print,
    parse_program, parse_return, parse_statement, parse_var, parse_while, kind_at, parse_for_rest,
    fits_opt_stmt,
    shape_of_stmt, shape_of_block, stmt_parsed_as, args_overflow, params_overflow,
};
use crate::lexer::{error_count, return_tokens, scan_of, spans, token_spans, Literal, Token, TokenType};
use crate::number::Numbers;
use crate::text::{chars_of, concat, decimal, owned, usize_to_string};

verus! {

/// An expression.
#[derive(Debug)]
pub enum Expr {
    Assign { name: Token, value: Box<Expr> },
    Binary { left: Box<Expr>, operator: Token, right: Box<Expr> },
    Call { callee: Box<Expr>, paren: Token, arguments: Vec<Expr> },
    Grouping { expression: Box<Expr> },
    Literal { value: Literal },
    Logical { left: Box<Expr>, operator: Token, right: Box<Expr> },
    Unary { operator: Token, right: Box<Expr> },
    Variable { name: Token },
    /// An absent expression: a `var` without initializer, a bare `return`.
    Null,
}

/// A statement.
#[derive(Debug)]
pub enum Stmt {
    Block(Vec<Stmt>),
    Expression(Expr),
    Function(Token, Vec<Token>, Vec<Stmt>),
    If(Expr, Box<Stmt>, Box<Option<Stmt>>),
    Print(Expr),
    Return(Token, Expr),
    Var(Token, Expr),
    While(Expr, Box<Stmt>),
}

/// The condition of a `for` loop: the one written, `true` when absent.
pub open spec fn loop_condition(condition: Option<Expr>) -> Expr {
    match condition {
        Some(c) => c,
        None => Expr::Literal { value: Literal::Boolean(true) },
    }
}

/// `w` is `while (cond) body` where `cond` is `loop_condition(condition)` and the body is
/// `body` followed by the increment, when there is one.
pub open spec fn while_form(
    w: Stmt,
    condition: Option<Expr>,
    increment: Option<Expr>,
    body: Stmt,
) -> bool {
    match w {
        Stmt::While(c, b) => c == loop_condition(condition) && match increment {
            Some(incr) => match *b {
                Stmt::Block(v) => v@ == seq![body, Stmt::Expression(incr)],
                _ => false,
            },
            None => *b == body,
        },
        _ => false,
    }
}

/// `r` is the lowering of `for (initializer; condition; increment) body`: the `while` loop of
/// `while_form`, after the initializer in a block of its own when there is one.
pub open spec fn for_form(
    r: Stmt,
    initializer: Option<Stmt>,
    condition: Option<Expr>,
    increment: Option<Expr>,
    body: Stmt,
) -> bool {
    match initializer {
        Some(init) => match r {
            Stmt::Block(v) => v@.len() == 2 && v@[0] == init && while_form(
                v@[1],
                condition,
                increment,
                body,
            ),
            _ => false,
        },
        None => while_form(r, condition, increment, body),
    }
}

/// Lowers `for (initializer; condition; increment) body` to a `while` loop.
pub fn desugar_for(
    initializer: Option<Stmt>,
    condition: Option<Expr>,
    increment: Option<Expr>,
    body: Stmt,
) -> (r: Stmt)
    ensures
        for_form(r, initializer, condition, increment, body),
{
    let ghost b0 = body;
    let ghost c0 = condition;
    let ghost i0 = increment;
    let inner = match increment {
        Some(incr) => {
            let v = vec![body, Stmt::Expression(incr)];
            assert(v@ =~= seq![b0, Stmt::Expression(i0->0)]);
            Stmt::Block(v)
        },
        None => body,
    };
    let cond = match condition {
        Some(c) => c,
        None => Expr::Literal { value: Literal::Boolean(true) },
    };
    let looped = Stmt::While(cond, Box::new(inner));
    assert(while_form(looped, c0, i0, b0));
    match initializer {
        Some(init) => Stmt::Block(vec![init, looped]),
        None => looped,
    }
}

/// A syntax error: the token at which it was found and what was expected.
#[derive(Debug)]
pub struct ParseError {
    pub token: Token,
    pub message: String,
}

/// The text of a syntax error report.
pub open spec fn parse_error_text(line: nat, message: Seq<char>) -> Seq<char> {
    "[Parse error at line "@ + decimal(line) + "]: "@ + message
}

/// A recursive-descent parser over a token list that ends in its end-of-file token.
pub struct Parser {
    pub tokens: Vec<Token>,
    pub current: usize,
    pub had_error: bool,
    /// Whether an expression statement needs its closing `;`.
    pub evaluate: bool,
    /// The exit code that the errors so far call for.
    pub error: i32,
    /// The reports of the syntax errors, in order.
    pub errors: Vec<String>,
}

/// `r` is the expression that `spec` describes, and `p` stands just after it; or `r` is an
/// error where `spec` finds none.
pub open spec fn parsed_as(r: Result<Expr, ParseError>, spec: Option<(Shape, int)>, p: Parser) -> bool {
    match spec {
        Some((s, j)) => r is Ok && fits(r->Ok_0, s) && p.current == j,
        None => r is Err,
    }
}

/// Position `p` is no place where error recovery stops: no `;` just before it, and no token
/// there that starts a statement.
pub open spec fn boundary_free(t: Seq<Token>, p: int) -> bool {
    t[p - 1].token_type != TokenType::SEMICOLON && !starts_statement(t[p].token_type)
}

/// The token kinds that start a statement, where error recovery resumes.
pub open spec fn starts_statement(t: TokenType) -> bool {
    t == TokenType::CLASS || t == TokenType::FUN || t == TokenType::VAR || t == TokenType::FOR
        || t == TokenType::IF || t == TokenType::WHILE || t == TokenType::PRINT || t
        == TokenType::RETURN
}

impl Parser {
    /// The token list ends in the end-of-file token, the position is on the list, and an
    /// error has been had exactly when one has been reported.
    pub open spec fn wf(self) -> bool {
        &&& self.tokens@.len() > 0
        &&& self.tokens@.last().token_type == TokenType::EOF
        &&& self.current < self.tokens@.len()
        &&& self.had_error == (self.errors@.len() > 0)
    }

    pub open spec fn at_end(self) -> bool {
        self.tokens@[self.current as int].token_type == TokenType::EOF
    }

    pub open spec fn next_kind(self) -> TokenType {
        self.tokens@[self.current as int].token_type
    }

    /// `self` is `old` moved forward along the same tokens, with the same settings.
    pub open spec fn moved_from(self, old: Parser) -> bool {
        &&& self.wf()
        &&& self.tokens == old.tokens
        &&& self.evaluate == old.evaluate
        &&& self.current >= old.current
        &&& self.errors@.len() >= old.errors@.len()
    }

    /// A parser at the start of `tokens`; `evaluate` says whether expression statements
    /// need their closing `;`.
    pub fn new(tokens: Vec<Token>, evaluate: bool) -> (r: Self)
        requires
            tokens@.len() > 0,
            tokens@.last().token_type == TokenType::EOF,
        ensures
            r.wf(),
            r.tokens == tokens,
            r.current == 0,
            !r.had_error,
            r.evaluate == evaluate,
            r.error == 65,
            r.errors@.len() == 0,
    {
        Parser { tokens, current: 0, had_error: false, evaluate, error: 65, errors: Vec::new() }
    }

    fn is_at_end(&self) -> (r: bool)
        requires
            self.wf(),
        ensures
            r == self.at_end(),
    {
        self.tokens[self.current].token_type == TokenType::EOF
    }

    fn peek(&self) -> (r: &Token)
        requires
            self.wf(),
        ensures
            *r == self.tokens@[self.current as int],
    {
        &self.tokens[self.current]
    }

    fn check(&self, token_type: TokenType) -> (r: bool)
        requires
            self.wf(),
        ensures
            r == (self.next_kind() == token_type),
    {
        self.tokens[self.current].token_type == token_type
    }

    /// Moves past the next token, unless it is the end of file.
    fn advance(&mut self)
        requires
            old(self).wf(),
        ensures
            final(self).moved_from(*old(self)),
            final(self).had_error == old(self).had_error,
            final(self).errors == old(self).errors,
            final(self).error == old(self).error,
            old(self).at_end() ==> final(self).current == old(self).current,
            !old(self).at_end() ==> final(self).current == old(self).current + 1,
    {
        if !self.is_at_end() {
            let n = self.tokens.len();
            assert(self.current + 1 < n);
            self.current = self.current + 1;
        }
    }

    /// Records the report of a syntax error.
    fn report(&mut self, error: &ParseError)
        ensures
            final(self).tokens == old(self).tokens,
            final(self).current == old(self).current,
            final(self).evaluate == old(self).evaluate,
            final(self).error == old(self).error,
            final(self).had_error,
            final(self).errors@.len() == old(self).errors@.len() + 1,
            final(self).errors@.take(old(self).errors@.len() as int) == old(self).errors@,
            final(self).errors@.last()@ == parse_error_text(
                error.token.line as nat,
                error.message@,
            ),
    {
        let mut text = owned("[Parse error at line ");
        let number = usize_to_string(error.token.line);
        text.append(number.as_str());
        text.append("]: ");
        text.append(error.message.as_str());
        self.errors.push(text);
        self.had_error = true;
        assert(self.errors@.take(old(self).errors@.len() as int) =~= old(self).errors@);
    }

    /// Moves past the next token when it is of kind `token_type`; otherwise an error
    /// naming the token found.
    fn consume(&mut self, token_type: TokenType, message: &str) -> (r: Option<ParseError>)
        requires
            old(self).wf(),
            token_type != TokenType::EOF,
        ensures
            final(self).moved_from(*old(self)),
            final(self).errors == old(self).errors,
            r is None <==> old(self).next_kind() == token_type,
            r is None ==> final(self).current == old(self).current + 1 && final(self).had_error
                == old(self).had_error && final(self).error == old(self).error,
            r is Some ==> final(self).current == old(self).current && final(self).had_error
                == old(self).had_error && final(self).error == 65 && r->0.token == old(self).tokens@[old(self).current as int]
                && r->0.message@ == message@,
    {
        if self.check(token_type) {
            assert(!self.at_end());
            self.advance();
            return None;
        }
        self.error = 65;
        Some(ParseError { token: self.peek().copy(), message: owned(message) })
    }

    /// Skips to the next likely statement boundary: past a `;`, or up to a token that starts
    /// a statement.
    fn synchronize(&mut self)
        requires
            old(self).wf(),
        ensures
            final(self).moved_from(*old(self)),
            final(self).had_error == old(self).had_error,
            final(self).errors == old(self).errors,
            final(self).error == old(self).error,
            !old(self).at_end() ==> final(self).current > old(self).current,
            final(self).at_end() || final(self).tokens@[final(self).current - 1].token_type
                == TokenType::SEMICOLON || starts_statement(final(self).next_kind()),
            forall|p: int|
                old(self).current < p < final(self).current ==> boundary_free(final(self).tokens@, p),
    {
        self.advance();
        while !self.is_at_end()
            invariant
                self.moved_from(*old(self)),
                self.had_error == old(self).had_error,
                self.errors == old(self).errors,
                self.error == old(self).error,
                !old(self).at_end() ==> self.current > old(self).current,
                old(self).at_end() ==> self.at_end(),
                forall|p: int| old(self).current < p < self.current ==> boundary_free(self.tokens@, p),
            decreases self.tokens@.len() - self.current,
        {
            if self.tokens[self.current - 1].token_type == TokenType::SEMICOLON {
                return;
            }
            let k = self.tokens[self.current].token_type;
            if k == TokenType::CLASS || k == TokenType::FUN || k == TokenType::VAR || k
                == TokenType::FOR || k == TokenType::IF || k == TokenType::WHILE || k
                == TokenType::PRINT || k == TokenType::RETURN {
                return;
            }
            self.advance();
        }
    }
}

impl Parser {
    /// Moves past the next token when it is of kind `token_type` and returns it.
    fn match_one(&mut self, token_type: TokenType) -> (r: Option<Token>)
        requires
            old(self).wf(),
            token_type != TokenType::EOF,
        ensures
            final(self).moved_from(*old(self)),
            final(self).had_error == old(self).had_error,
            final(self).errors == old(self).errors,
            final(self).error == old(self).error,
            r is Some <==> old(self).next_kind() == token_type,
            r is Some ==> r->0 == old(self).tokens@[old(self).current as int] && final(self).current
                == old(self).current + 1,
            r is None ==> final(self).current == old(self).current,
    {
        if self.check(token_type) {
            let t = self.peek().copy();
            self.advance();
            Some(t)
        } else {
            None
        }
    }

    /// Moves past the next token when it is an operator of binary precedence `level`, and
    /// returns it.
    fn match_level(&mut self, level: u8) -> (r: Option<Token>)
        requires
            old(self).wf(),
        ensures
            final(self).moved_from(*old(self)),
            final(self).had_error == old(self).had_error,
            final(self).errors == old(self).errors,
            final(self).error == old(self).error,
            r is Some <==> level_operator(level as nat, old(self).next_kind()),
            r is Some ==> r->0 == old(self).tokens@[old(self).current as int] && final(self).current
                == old(self).current + 1,
            r is None ==> final(self).current == old(self).current,
    {
        let k = self.peek().token_type;
        let hit = if level == 8 {
            k == TokenType::OR
        } else if level == 7 {
            k == TokenType::AND
        } else if level == 6 {
            k == TokenType::BANG_EQUAL || k == TokenType::EQUAL_EQUAL
        } else if level == 5 {
            k == TokenType::GREATER || k == TokenType::GREATER_EQUAL || k == TokenType::LESS || k
                == TokenType::LESS_EQUAL
        } else if level == 4 {
            k == TokenType::MINUS || k == TokenType::PLUS
        } else {
            k == TokenType::SLASH || k == TokenType::STAR
        };
        if hit {
            let t = self.peek().copy();
            self.advance();
            Some(t)
        } else {
            None
        }
    }

    fn expression(&mut self) -> (r: Result<Expr, ParseError>)
        requires
            old(self).wf(),
        ensures
            final(self).moved_from(*old(self)),
            r is Ok ==> final(self).current > old(self).current,
            final(self).errors == old(self).errors,
            parsed_as(r, parse_expression(old(self).tokens@, old(self).current as int), *final(self)),
        decreases old(self).tokens@.len() - old(self).current, 10nat,
    {
        self.assignment()
    }

    /// `IDENT "=" assignment | logic_or`; a `=` after anything but a variable is an
    /// invalid target.
    fn assignment(&mut self) -> (r: Result<Expr, ParseError>)
        requires
            old(self).wf(),
        ensures
            final(self).moved_from(*old(self)),
            r is Ok ==> final(self).current > old(self).current,
            final(self).errors == old(self).errors,
            parsed_as(r, parse_assignment(old(self).tokens@, old(self).current as int), *final(self)),
            parse_binary(old(self).tokens@, old(self).current as int, 8) matches Some((e, j)) ==> (
            j < old(self).tokens@.len() && kind_at(old(self).tokens@, j) == TokenType::EQUAL
                && parse_assignment(old(self).tokens@, j + 1) is Some && !(e is Variable) ==> (
            r matches Err(err) && err.token == old(self).tokens@[j] && err.message@
                == "Invalid assignment target."@)),
        decreases old(self).tokens@.len() - old(self).current, 9nat,
    {
        let ghost t = self.tokens@;
        let ghost i = self.current as int;
        let expr = match self.binary(8) {
            Ok(e) => e,
            Err(e) => return Err(e),
        };
        let ghost left = shape_of(parse_binary(t, i, 8));
        match self.match_one(TokenType::EQUAL) {
            Some(equals) => {
                let value = match self.assignment() {
                    Ok(v) => v,
                    Err(e) => return Err(e),
                };
                match expr {
                    Expr::Variable { name } => Ok(Expr::Assign { name, value: Box::new(value) }),
                    _ => Err(ParseError { token: equals, message: owned("Invalid assignment target.") }),
                }
            },
            None => Ok(expr),
        }
    }

    /// A binary precedence level, 3 (`*` `/`) to 8 (`or`): operands of the level below joined
    /// left to right by the level's operators.
    fn binary(&mut self, level: u8) -> (r: Result<Expr, ParseError>)
        requires
            old(self).wf(),
            3 <= level <= 8,
        ensures
            final(self).moved_from(*old(self)),
            r is Ok ==> final(self).current > old(self).current,
            final(self).errors == old(self).errors,
            parsed_as(r, parse_binary(old(self).tokens@, old(self).current as int, level as nat), *final(self)),
        decreases old(self).tokens@.len() - old(self).current, level as nat,
    {
        let ghost t = self.tokens@;
        let ghost i = self.current as int;
        let mut expr = if level == 3 {
            match self.unary() {
                Ok(e) => e,
                Err(e) => return Err(e),
            }
        } else {
            match self.binary(level - 1) {
                Ok(e) => e,
                Err(e) => return Err(e),
            }
        };
        let ghost mut shape = if level == 3 {
            shape_of(parse_unary(t, i))
        } else {
            shape_of(parse_binary(t, i, (level - 1) as nat))
        };
        loop
            invariant
                self.moved_from(*old(self)),
                self.current > old(self).current,
                t == self.tokens@,
                i == old(self).current,
                3 <= level <= 8,
                fits(expr, shape),
                self.errors == old(self).errors,
                parse_binary(t, i, level as nat) == parse_binary_rest(t, self.current as int, shape, level as nat),
            decreases self.tokens@.len() - self.current,
        {
            let ghost j = self.current as int;
            match self.match_level(level) {
                Some(operator) => {
                    let right = if level == 3 {
                        match self.unary() {
                            Ok(e) => e,
                            Err(e) => return Err(e),
                        }
                    } else {
                        match self.binary(level - 1) {
                            Ok(e) => e,
                            Err(e) => return Err(e),
                        }
                    };
                    let ghost rs = if level == 3 {
                        shape_of(parse_unary(t, j + 1))
                    } else {
                        shape_of(parse_binary(t, j + 1, (level - 1) as nat))
                    };
                    proof {
                        shape = join(level as nat, shape, operator, rs);
                    }
                    expr = if level >= 7 {
                        Expr::Logical { left: Box::new(expr), operator, right: Box::new(right) }
                    } else {
                        Expr::Binary { left: Box::new(expr), operator, right: Box::new(right) }
                    };
                },
                None => return Ok(expr),
            }
        }
    }

    fn unary(&mut self) -> (r: Result<Expr, ParseError>)
        requires
            old(self).wf(),
        ensures
            final(self).moved_from(*old(self)),
            r is Ok ==> final(self).current > old(self).current,
            final(self).errors == old(self).errors,
            parsed_as(r, parse_unary(old(self).tokens@, old(self).current as int), *final(self)),
        decreases old(self).tokens@.len() - old(self).current, 2nat,
    {
        let k = self.peek().token_type;
        if k == TokenType::BANG || k == TokenType::MINUS {
            let operator = self.peek().copy();
            self.advance();
            let right = match self.unary() {
                Ok(e) => e,
                Err(e) => return Err(e),
            };
            Ok(Expr::Unary { operator, right: Box::new(right) })
        } else {
            self.call()
        }
    }

    fn call(&mut self) -> (r: Result<Expr, ParseError>)
        requires
            old(self).wf(),
        ensures
            final(self).moved_from(*old(self)),
            r is Ok ==> final(self).current > old(self).current,
            final(self).errors == old(self).errors,
            parsed_as(r, parse_call(old(self).tokens@, old(self).current as int), *final(self)),
        decreases old(self).tokens@.len() - old(self).current, 1nat,
    {
        let ghost t = self.tokens@;
        let ghost i = self.current as int;
        let mut expr = match self.primary() {
            Ok(e) => e,
            Err(e) => return Err(e),
        };
        let ghost mut shape = shape_of(parse_primary(t, i));
        loop
            invariant
                self.moved_from(*old(self)),
                self.current > old(self).current,
                t == self.tokens@,
                i == old(self).current,
                fits(expr, shape),
                self.errors == old(self).errors,
                parse_call(t, i) == parse_call_rest(t, self.current as int, shape),
            decreases self.tokens@.len() - self.current,
        {
            let ghost j = self.current as int;
            match self.match_one(TokenType::LEFT_PAREN) {
                Some(_) => {
                    expr = match self.finish_call(expr, Ghost(shape)) {
                        Ok(e) => e,
                        Err(e) => return Err(e),
                    };
                    proof {
                        shape = shape_of(parse_finish_call(t, j + 1, shape));
                    }
                },
                None => return Ok(expr),
            }
        }
    }

    /// The arguments of a call, after its `(`, and the closing `)`.
    fn finish_call(&mut self, callee: Expr, Ghost(shape): Ghost<Shape>) -> (r: Result<Expr, ParseError>)
        requires
            old(self).wf(),
            fits(callee, shape),
        ensures
            final(self).moved_from(*old(self)),
            r is Ok ==> final(self).current > old(self).current,
            final(self).errors == old(self).errors,
            parsed_as(r, parse_finish_call(old(self).tokens@, old(self).current as int, shape), *final(self)),
            r matches Ok(Expr::Call { paren, arguments, .. }) ==> (paren.token_type
                == TokenType::RIGHT_PAREN && arguments@.len() <= 255),
            kind_at(old(self).tokens@, old(self).current as int) != TokenType::RIGHT_PAREN
                && args_overflow(old(self).tokens@, old(self).current as int, 0) ==> (r matches Err(e)
                && e.message@ == "Can't have more than 255 arguments."@),
        decreases old(self).tokens@.len() - old(self).current, 11nat,
    {
        let ghost t = self.tokens@;
        if self.check(TokenType::RIGHT_PAREN) {
            let paren = self.peek().copy();
            self.advance();
            let arguments: Vec<Expr> = Vec::new();
            let r = Expr::Call { callee: Box::new(callee), paren, arguments };
            proof {
                lemma_call_fits(r, shape_of(parse_finish_call(t, old(self).current as int, shape)));
            }
            return Ok(r);
        }
        let mut arguments: Vec<Expr> = Vec::new();
        let ghost mut shapes: Seq<Shape> = Seq::empty();
        loop
            invariant
                self.moved_from(*old(self)),
                t == self.tokens@,
                arguments@.len() <= 255,
                arguments@.len() == shapes.len(),
                forall|k: int| 0 <= k < shapes.len() ==> #[trigger] fits(arguments@[k], shapes[k]),
                fits(callee, shape),
                self.errors == old(self).errors,
                parse_finish_call(t, old(self).current as int, shape) == parse_arguments(
                    t,
                    self.current as int,
                    shape,
                    shapes,
                ),
                kind_at(t, old(self).current as int) != TokenType::RIGHT_PAREN,
                args_overflow(t, old(self).current as int, 0) == args_overflow(
                    t,
                    self.current as int,
                    arguments@.len() as nat,
                ),
            decreases self.tokens@.len() - self.current,
        {
            if arguments.len() >= 255 {
                return Err(
                    ParseError {
                        token: self.peek().copy(),
                        message: owned("Can't have more than 255 arguments."),
                    },
                );
            }
            let ghost i = self.current as int;
            let argument = match self.expression() {
                Ok(e) => e,
                Err(e) => return Err(e),
            };
            let ghost a = shape_of(parse_expression(t, i));
            arguments.push(argument);
            proof {
                shapes = shapes.push(a);
            }
            if self.match_one(TokenType::COMMA).is_none() {
                let paren = self.peek().copy();
                return match self.consume(TokenType::RIGHT_PAREN, "Expect ')' after arguments.") {
                    Some(e) => Err(e),
                    None => {
                        let ghost p = paren;
                        let r = Expr::Call { callee: Box::new(callee), paren, arguments };
                        proof {
                            lemma_call_fits(r, Shape::Call(Box::new(shape), p, shapes));
                        }
                        Ok(r)
                    },
                };
            }
        }
    }

    /// A literal, a variable, or a parenthesized expression.
    fn primary(&mut self) -> (r: Result<Expr, ParseError>)
        requires
            old(self).wf(),
        ensures
            final(self).moved_from(*old(self)),
            r is Ok ==> final(self).current > old(self).current,
            final(self).errors == old(self).errors,
            parsed_as(r, parse_primary(old(self).tokens@, old(self).current as int), *final(self)),
            old(self).next_kind() == TokenType::FALSE ==> r == Ok::<Expr, ParseError>(
                Expr::Literal { value: Literal::Boolean(false) },
            ),
            old(self).next_kind() == TokenType::TRUE ==> r == Ok::<Expr, ParseError>(
                Expr::Literal { value: Literal::Boolean(true) },
            ),
            old(self).next_kind() == TokenType::NIL ==> r == Ok::<Expr, ParseError>(
                Expr::Literal { value: Literal::Nothing },
            ),
            old(self).next_kind() == TokenType::NUMBER ==> (r matches Ok(
                Expr::Literal { value: Literal::Number(n) },
            ) && n@ == old(self).tokens@[old(self).current as int].lexeme@),
            old(self).next_kind() == TokenType::STRING ==> r matches Ok(
                Expr::Literal { value: Literal::String(_) },
            ),
            old(self).next_kind() == TokenType::IDENTIFIER ==> r == Ok::<Expr, ParseError>(
                Expr::Variable { name: old(self).tokens@[old(self).current as int] },
            ),
            old(self).next_kind() == TokenType::LEFT_PAREN ==> (r is Err || r matches Ok(
                Expr::Grouping { .. },
            )),
            !(old(self).next_kind() == TokenType::FALSE || old(self).next_kind() == TokenType::TRUE
                || old(self).next_kind() == TokenType::NIL || old(self).next_kind()
                == TokenType::NUMBER || old(self).next_kind() == TokenType::STRING
                || old(self).next_kind() == TokenType::IDENTIFIER || old(self).next_kind()
                == TokenType::LEFT_PAREN) ==> (r matches Err(e) && e.token == old(self).tokens@[old(
                self,
            ).current as int] && e.message@ == "Expected expression."@ && final(self).current
                == old(self).current),
        decreases old(self).tokens@.len() - old(self).current, 0nat,
    {
        let token = self.peek().copy();
        let kind = token.token_type;
        if kind == TokenType::FALSE || kind == TokenType::TRUE || kind == TokenType::NIL || kind
            == TokenType::NUMBER || kind == TokenType::STRING || kind == TokenType::IDENTIFIER
            || kind == TokenType::LEFT_PAREN {
            self.advance();
        }
        match kind {
            TokenType::FALSE => Ok(Expr::Literal { value: Literal::Boolean(false) }),
            TokenType::TRUE => Ok(Expr::Literal { value: Literal::Boolean(true) }),
            TokenType::NIL => Ok(Expr::Literal { value: Literal::Nothing }),
            TokenType::NUMBER => Ok(Expr::Literal { value: Literal::Number(token.lexeme) }),
            TokenType::STRING => {
                let text = match token.literal {
                    Literal::String(s) => s,
                    _ => token.lexeme,
                };
                Ok(Expr::Literal { value: Literal::String(text) })
            },
            TokenType::IDENTIFIER => Ok(Expr::Variable { name: token }),
            TokenType::LEFT_PAREN => {
                let expr = match self.expression() {
                    Ok(e) => e,
                    Err(e) => return Err(e),
                };
                match self.consume(TokenType::RIGHT_PAREN, "Expect ')' after expression.") {
                    Some(e) => Err(e),
                    None => Ok(Expr::Grouping { expression: Box::new(expr) }),
                }
            },
            _ => {
                self.error = 65;
                Err(ParseError { token, message: owned("Expected expression.") })
            },
        }
    }
}

impl Parser {
    /// Parses the whole token list: each declaration in turn, skipping to the next statement
    /// boundary after a syntax error. Where no error is reported, the statements have the
    /// structure that the grammar gives the tokens.
    pub fn parse(&mut self) -> (r: Vec<Stmt>)
        requires
            old(self).wf(),
        ensures
            final(self).moved_from(*old(self)),
            final(self).at_end(),
            old(self).errors@.len() == 0 ==> (final(self).had_error <==> parse_program(
                old(self).tokens@,
                old(self).current as int,
                old(self).evaluate,
                Seq::empty(),
            ) is None),
            final(self).errors@.len() == old(self).errors@.len() ==> (parse_program(
                old(self).tokens@,
                old(self).current as int,
                old(self).evaluate,
                Seq::empty(),
            ) matches Some(w) && r@.len() == w.len() && fits_stmts_from(r@, w, 0)),
            parse_program(old(self).tokens@, old(self).current as int, old(self).evaluate, Seq::empty())
                is Some ==> final(self).errors@.len() == old(self).errors@.len(),
    {
        let ghost t = self.tokens@;
        let ghost ev = self.evaluate;
        let ghost e0 = self.errors@.len();
        let mut statements: Vec<Stmt> = Vec::new();
        let ghost mut shapes: Seq<StmtShape> = Seq::empty();
        while !self.is_at_end()
            invariant
                self.moved_from(*old(self)),
                t == self.tokens@,
                ev == self.evaluate,
                e0 == old(self).errors@.len(),
                parse_program(t, old(self).current as int, ev, Seq::empty()) is Some ==> self.errors@.len() == e0,
                self.errors@.len() == e0 ==> (parse_program(t, old(self).current as int, ev, Seq::empty())
                    == parse_program(t, self.current as int, ev, shapes) && statements@.len()
                    == shapes.len() && forall|k: int|
                    0 <= k < shapes.len() ==> #[trigger] fits_stmt(statements@[k], shapes[k])),
            decreases self.tokens@.len() - self.current,
        {
            let ghost i = self.current as int;
            match self.declaration() {
                Some(stmt) => {
                    let ghost s = shape_of_stmt(parse_declaration(t, i, ev));
                    statements.push(stmt);
                    proof {
                        shapes = shapes.push(s);
                    }
                },
                None => self.synchronize(),
            }
        }
        proof {
            if self.errors@.len() == e0 {
                lemma_fits_stmts(statements@, shapes, 0);
            }
        }
        statements
    }

    fn declaration(&mut self) -> (r: Option<Stmt>)
        requires
            old(self).wf(),
        ensures
            final(self).moved_from(*old(self)),
            r is Some ==> final(self).current > old(self).current,
            r is None ==> final(self).errors@.len() > old(self).errors@.len(),
            stmt_parsed_as(r, parse_declaration(old(self).tokens@, old(self).current as int, old(self).evaluate), *final(self), old(self).errors@.len()),
            parse_declaration(old(self).tokens@, old(self).current as int, old(self).evaluate) is Some ==> r is Some && final(self).errors@.len() == old(self).errors@.len(),
        decreases old(self).tokens@.len() - old(self).current, 15nat,
    {
        if self.match_one(TokenType::FUN).is_some() {
            return self.function("function");
        }
        if self.match_one(TokenType::VAR).is_some() {
            return self.var_declaration();
        }
        self.statement()
    }

    /// Reports `error` and gives up on the statement.
    fn fail(&mut self, error: ParseError) -> (r: Option<Stmt>)
        ensures
            final(self).tokens == old(self).tokens,
            final(self).current == old(self).current,
            final(self).evaluate == old(self).evaluate,
            final(self).error == old(self).error,
            final(self).had_error,
            final(self).errors@.len() == old(self).errors@.len() + 1,
            final(self).errors@.last()@ == parse_error_text(error.token.line as nat, error.message@),
            r is None,
    {
        self.report(&error);
        None
    }

    /// A function's name, parameters and body, after `fun`.
    fn function(&mut self, kind: &str) -> (r: Option<Stmt>)
        requires
            old(self).wf(),
        ensures
            final(self).moved_from(*old(self)),
            r is Some ==> final(self).current > old(self).current,
            r is None ==> final(self).errors@.len() > old(self).errors@.len(),
            r matches Some(Stmt::Function(name, params, _)) ==> (name.token_type
                == TokenType::IDENTIFIER && params@.len() <= 255 && forall|k: int|
                0 <= k < params@.len() ==> (#[trigger] params@[k]).token_type
                == TokenType::IDENTIFIER),
            stmt_parsed_as(r, parse_function(old(self).tokens@, old(self).current as int, old(self).evaluate), *final(self), old(self).errors@.len()),
            parse_function(old(self).tokens@, old(self).current as int, old(self).evaluate) is Some ==> r is Some && final(self).errors@.len() == old(self).errors@.len(),
            old(self).current + 2 < old(self).tokens@.len() && kind_at(old(self).tokens@, old(self).current as int)
                == TokenType::IDENTIFIER && kind_at(old(self).tokens@, old(self).current + 1)
                == TokenType::LEFT_PAREN && kind_at(old(self).tokens@, old(self).current + 2)
                != TokenType::RIGHT_PAREN && params_overflow(old(self).tokens@, old(self).current + 2, 0)
                ==> r is None && exists|line: nat| final(self).errors@.last()@ == parse_error_text(
                line,
                "Can't have more than 255 parameters."@,
            ),
        decreases old(self).tokens@.len() - old(self).current, 14nat,
    {
        let ghost t = self.tokens@;
        let ghost i = self.current as int;
        let name_message = concat(concat("Expect ", kind).as_str(), " name.");
        let name = self.peek().copy();
        if let Some(error) = self.consume(TokenType::IDENTIFIER, name_message.as_str()) {
            return self.fail(error);
        }
        let paren_message = concat(concat("Expect '(' after ", kind).as_str(), " name.");
        if let Some(error) = self.consume(TokenType::LEFT_PAREN, paren_message.as_str()) {
            return self.fail(error);
        }
        let mut parameters: Vec<Token> = Vec::new();
        let ghost mut pending: Option<(Seq<Token>, int)> = Some((Seq::empty(), i + 3));
        if !self.check(TokenType::RIGHT_PAREN) {
            proof {
                pending = parse_params(t, i + 2, Seq::empty());
            }
            loop
                invariant_except_break
                    pending == parse_params(t, self.current as int, parameters@),
                    params_overflow(t, i + 2, 0) == params_overflow(t, self.current as int, parameters@.len() as nat),
                invariant
                    self.moved_from(*old(self)),
                    t == self.tokens@,
                    self.current > old(self).current,
                    i == old(self).current,
                    self.errors == old(self).errors,
                    parameters@.len() <= 255,
                    forall|k: int|
                        0 <= k < parameters@.len() ==> (#[trigger] parameters@[k]).token_type
                            == TokenType::IDENTIFIER,
                    pending == parse_params(t, i + 2, Seq::empty()),
                    i + 2 < t.len(),
                    kind_at(t, i) == TokenType::IDENTIFIER,
                    kind_at(t, i + 1) == TokenType::LEFT_PAREN,
                    kind_at(t, i + 2) != TokenType::RIGHT_PAREN,
                    parse_function(t, i, self.evaluate) is Some ==> pending is Some,
                ensures
                    !params_overflow(t, i + 2, 0),
                    self.moved_from(*old(self)),
                    t == self.tokens@,
                    self.current > old(self).current,
                    self.errors == old(self).errors,
                    parameters@.len() <= 255,
                    forall|k: int|
                        0 <= k < parameters@.len() ==> (#[trigger] parameters@[k]).token_type
                            == TokenType::IDENTIFIER,
                    pending == parse_params(t, i + 2, Seq::empty()),
                    pending == if kind_at(t, self.current as int) == TokenType::RIGHT_PAREN {
                        Some((parameters@, self.current + 1))
                    } else {
                        None::<(Seq<Token>, int)>
                    },
                decreases self.tokens@.len() - self.current,
            {
                if parameters.len() >= 255 {
                    let error = ParseError {
                        token: self.peek().copy(),
                        message: owned("Can't have more than 255 parameters."),
                    };
                    return self.fail(error);
                }
                let param = self.peek().copy();
                if let Some(error) = self.consume(TokenType::IDENTIFIER, "Expect parameter name.") {
                    return self.fail(error);
                }
                parameters.push(param);
                if self.match_one(TokenType::COMMA).is_none() {
                    break ;
                }
            }
        }
        if let Some(error) = self.consume(TokenType::RIGHT_PAREN, "Expect ')' after parameters.") {
            return self.fail(error);
        }
        let brace_message = concat(concat("Expect '{' before ", kind).as_str(), " body.");
        if let Some(error) = self.consume(TokenType::LEFT_BRACE, brace_message.as_str()) {
            return self.fail(error);
        }
        let ghost j = self.current as int;
        let body = self.block();
        let r = Stmt::Function(name, parameters, body);
        proof {
            if self.errors@.len() == old(self).errors@.len() {
                let w = shape_of_block(parse_block(t, j, old(self).evaluate));
                assert(fits_stmt(r, StmtShape::Function(name, parameters@, w)));
            }
        }
        Some(r)
    }

    /// `var IDENT ("=" expression)? ";"`, after `var`. A missing name or `;` calls for exit
    /// code 70.
    fn var_declaration(&mut self) -> (r: Option<Stmt>)
        requires
            old(self).wf(),
        ensures
            final(self).moved_from(*old(self)),
            r is Some ==> final(self).current > old(self).current,
            r is None ==> final(self).errors@.len() > old(self).errors@.len(),
            r matches Some(Stmt::Var(name, _)) ==> name.token_type == TokenType::IDENTIFIER,
            old(self).next_kind() != TokenType::IDENTIFIER ==> r is None && final(self).error == 70,
            stmt_parsed_as(r, parse_var(old(self).tokens@, old(self).current as int), *final(self), old(self).errors@.len()),
            parse_var(old(self).tokens@, old(self).current as int) is Some ==> r is Some && final(self).errors@.len() == old(self).errors@.len(),
            kind_at(old(self).tokens@, old(self).current as int) == TokenType::IDENTIFIER
                && old(self).current + 1 < old(self).tokens@.len() && kind_at(
                old(self).tokens@,
                old(self).current + 1,
            ) != TokenType::EQUAL && kind_at(old(self).tokens@, old(self).current + 1)
                != TokenType::SEMICOLON ==> r is None && final(self).error == 70,
            kind_at(old(self).tokens@, old(self).current as int) == TokenType::IDENTIFIER
                && old(self).current + 1 < old(self).tokens@.len() && kind_at(
                old(self).tokens@,
                old(self).current + 1,
            ) == TokenType::EQUAL ==> (parse_expression(old(self).tokens@, old(self).current + 2)
                matches Some((_, j)) ==> (kind_at(old(self).tokens@, j) != TokenType::SEMICOLON
                ==> r is None && final(self).error == 70)),
        decreases old(self).tokens@.len() - old(self).current, 14nat,
    {
        let name = self.peek().copy();
        if let Some(error) = self.consume(TokenType::IDENTIFIER, "Expect variable name.") {
            self.error = 70;
            return self.fail(error);
        }
        let mut initializer = Expr::Null;
        if self.match_one(TokenType::EQUAL).is_some() {
            match self.expression() {
                Ok(e) => initializer = e,
                Err(error) => return self.fail(error),
            }
        }
        if let Some(error) = self.consume(TokenType::SEMICOLON, "Expect ';' after variable declaration.") {
            self.error = 70;
            return self.fail(error);
        }
        Some(Stmt::Var(name, initializer))
    }

    fn statement(&mut self) -> (r: Option<Stmt>)
        requires
            old(self).wf(),
        ensures
            final(self).moved_from(*old(self)),
            r is Some ==> final(self).current > old(self).current,
            r is None ==> final(self).errors@.len() > old(self).errors@.len(),
            stmt_parsed_as(r, parse_statement(old(self).tokens@, old(self).current as int, old(self).evaluate), *final(self), old(self).errors@.len()),
            parse_statement(old(self).tokens@, old(self).current as int, old(self).evaluate) is Some ==> r is Some && final(self).errors@.len() == old(self).errors@.len(),
        decreases old(self).tokens@.len() - old(self).current, 14nat,
    {
        if self.match_one(TokenType::IF).is_some() {
            return self.if_statement();
        }
        if self.match_one(TokenType::PRINT).is_some() {
            return self.print_statement();
        }
        if self.match_one(TokenType::WHILE).is_some() {
            return self.while_statement();
        }
        if self.match_one(TokenType::RETURN).is_some() {
            return self.return_stmt();
        }
        if self.match_one(TokenType::FOR).is_some() {
            return self.for_statement();
        }
        if self.match_one(TokenType::LEFT_BRACE).is_some() {
            let ghost j = self.current as int;
            let r = Stmt::Block(self.block());
            proof {
                if self.errors@.len() == old(self).errors@.len() {
                    assert(fits_stmt(r, StmtShape::Block(shape_of_block(parse_block(self.tokens@, j, self.evaluate)))));
                }
            }
            return Some(r);
        }
        self.expression_statement()
    }

    /// `return expression? ";"`, after `return`; a bare `return` carries `Expr::Null`.
    fn return_stmt(&mut self) -> (r: Option<Stmt>)
        requires
            old(self).wf(),
            old(self).current > 0,
        ensures
            final(self).moved_from(*old(self)),
            r is Some ==> final(self).current > old(self).current,
            r is None ==> final(self).errors@.len() > old(self).errors@.len(),
            r matches Some(Stmt::Return(keyword, _)) ==> keyword == old(self).tokens@[old(
                self,
            ).current - 1],
            stmt_parsed_as(r, parse_return(old(self).tokens@, old(self).current as int), *final(self), old(self).errors@.len()),
            parse_return(old(self).tokens@, old(self).current as int) is Some ==> r is Some && final(self).errors@.len() == old(self).errors@.len(),
        decreases old(self).tokens@.len() - old(self).current, 13nat,
    {
        let keyword = self.tokens[self.current - 1].copy();
        let mut value = Expr::Null;
        if !self.check(TokenType::SEMICOLON) {
            match self.expression() {
                Ok(e) => value = e,
                Err(error) => return self.fail(error),
            }
        }
        if let Some(error) = self.consume(TokenType::SEMICOLON, "Expect ';' after return value.") {
            return self.fail(error);
        }
        Some(Stmt::Return(keyword, value))
    }

    /// `for (init; cond; incr) body`, after `for`, lowered to a `while` loop.
    fn for_statement(&mut self) -> (r: Option<Stmt>)
        requires
            old(self).wf(),
        ensures
            final(self).moved_from(*old(self)),
            r is Some ==> final(self).current > old(self).current,
            r is None ==> final(self).errors@.len() > old(self).errors@.len(),
            r is Some ==> exists|
                initializer: Option<Stmt>,
                condition: Option<Expr>,
                increment: Option<Expr>,
                body: Stmt,
            | #[trigger] for_form(r->0, initializer, condition, increment, body),
            stmt_parsed_as(r, parse_for(old(self).tokens@, old(self).current as int, old(self).evaluate), *final(self), old(self).errors@.len()),
            parse_for(old(self).tokens@, old(self).current as int, old(self).evaluate) is Some ==> r is Some && final(self).errors@.len() == old(self).errors@.len(),
        decreases old(self).tokens@.len() - old(self).current, 13nat,
    {
        let ghost t = self.tokens@;
        let ghost i = self.current as int;
        let ghost ev = self.evaluate;
        if let Some(error) = self.consume(TokenType::LEFT_PAREN, "Expect '(' after 'for'.") {
            return self.fail(error);
        }
        let ghost si: Option<StmtShape>;
        let initializer = if self.match_one(TokenType::SEMICOLON).is_some() {
            proof {
                si = None;
            }
            None
        } else if self.match_one(TokenType::VAR).is_some() {
            match self.var_declaration() {
                Some(s) => {
                    proof {
                        si = Some(shape_of_stmt(parse_var(t, i + 2)));
                    }
                    Some(s)
                },
                None => return None,
            }
        } else {
            match self.expression_statement() {
                Some(s) => {
                    proof {
                        si = Some(shape_of_stmt(parse_expression_statement(t, i + 1, ev)));
                    }
                    Some(s)
                },
                None => return None,
            }
        };
        let r = self.for_clauses(initializer, Ghost(si));
        r
    }

    /// The condition, increment and body of a `for` loop after its initializer, and the
    /// lowering of the whole loop.
    fn for_clauses(&mut self, initializer: Option<Stmt>, Ghost(si): Ghost<Option<StmtShape>>) -> (r:
        Option<Stmt>)
        requires
            old(self).wf(),
        ensures
            final(self).moved_from(*old(self)),
            r is None ==> final(self).errors@.len() > old(self).errors@.len(),
            r is Some ==> exists|
                initializer: Option<Stmt>,
                condition: Option<Expr>,
                increment: Option<Expr>,
                body: Stmt,
            | #[trigger] for_form(r->0, initializer, condition, increment, body),
            fits_opt_stmt(initializer, si) ==> stmt_parsed_as(r, parse_for_rest(old(self).tokens@, old(self).current as int, old(self).evaluate, si), *final(self), old(self).errors@.len()),
            parse_for_rest(old(self).tokens@, old(self).current as int, old(self).evaluate, si) is Some ==> r is Some && final(self).errors@.len() == old(self).errors@.len(),
        decreases old(self).tokens@.len() - old(self).current, 12nat,
    {
        let ghost t = self.tokens@;
        let ghost ev = self.evaluate;
        let ghost j = self.current as int;
        let mut condition = None;
        let ghost mut sc: Option<Shape> = None;
        if !self.check(TokenType::SEMICOLON) {
            match self.expression() {
                Ok(e) => {
                    condition = Some(e);
                    proof {
                        sc = Some(shape_of(parse_expression(t, j)));
                    }
                },
                Err(error) => return self.fail(error),
            }
        }
        if let Some(error) = self.consume(TokenType::SEMICOLON, "Expect ';' after loop condition.") {
            return self.fail(error);
        }
        let ghost j3 = self.current as int;
        let mut increment = None;
        let ghost mut sn: Option<Shape> = None;
        if !self.check(TokenType::RIGHT_PAREN) {
            match self.expression() {
                Ok(e) => {
                    increment = Some(e);
                    proof {
                        sn = Some(shape_of(parse_expression(t, j3)));
                    }
                },
                Err(error) => return self.fail(error),
            }
        }
        if let Some(error) = self.consume(TokenType::RIGHT_PAREN, "Expect ')' after for clauses.") {
            return self.fail(error);
        }
        let ghost j5 = self.current as int;
        let body = match self.statement() {
            Some(b) => b,
            None => return None,
        };
        let ghost sb = shape_of_stmt(parse_statement(t, j5, ev));
        let ghost parts = (initializer, condition, increment, body);
        let lowered = desugar_for(initializer, condition, increment, body);
        proof {
            if self.errors@.len() == old(self).errors@.len() && fits_opt_stmt(parts.0, si) {
                lemma_for_fits(lowered, parts.0, parts.1, parts.2, parts.3, si, sc, sn, sb);
            }
        }
        let r = Some(lowered);
        assert(for_form(r->0, parts.0, parts.1, parts.2, parts.3));
        r
    }

    fn while_statement(&mut self) -> (r: Option<Stmt>)
        requires
            old(self).wf(),
        ensures
            final(self).moved_from(*old(self)),
            r is Some ==> final(self).current > old(self).current,
            r is None ==> final(self).errors@.len() > old(self).errors@.len(),
            r is Some ==> r->0 is While,
            stmt_parsed_as(r, parse_while(old(self).tokens@, old(self).current as int, old(self).evaluate), *final(self), old(self).errors@.len()),
            parse_while(old(self).tokens@, old(self).current as int, old(self).evaluate) is Some ==> r is Some && final(self).errors@.len() == old(self).errors@.len(),
        decreases old(self).tokens@.len() - old(self).current, 13nat,
    {
        if let Some(error) = self.consume(TokenType::LEFT_PAREN, "Expect '(' after 'while'.") {
            return self.fail(error);
        }
        let condition = match self.expression() {
            Ok(e) => e,
            Err(error) => return self.fail(error),
        };
        if let Some(error) = self.consume(TokenType::RIGHT_PAREN, "Expect ')' after condition.") {
            return self.fail(error);
        }
        let body = match self.statement() {
            Some(b) => b,
            None => return None,
        };
        Some(Stmt::While(condition, Box::new(body)))
    }

    fn if_statement(&mut self) -> (r: Option<Stmt>)
        requires
            old(self).wf(),
        ensures
            final(self).moved_from(*old(self)),
            r is Some ==> final(self).current > old(self).current,
            r is None ==> final(self).errors@.len() > old(self).errors@.len(),
            r is Some ==> r->0 is If,
            stmt_parsed_as(r, parse_if(old(self).tokens@, old(self).current as int, old(self).evaluate), *final(self), old(self).errors@.len()),
            parse_if(old(self).tokens@, old(self).current as int, old(self).evaluate) is Some ==> r is Some && final(self).errors@.len() == old(self).errors@.len(),
        decreases old(self).tokens@.len() - old(self).current, 13nat,
    {
        if let Some(error) = self.consume(TokenType::LEFT_PAREN, "Expect '(' after 'if'.") {
            return self.fail(error);
        }
        let condition = match self.expression() {
            Ok(e) => e,
            Err(error) => return self.fail(error),
        };
        if let Some(error) = self.consume(TokenType::RIGHT_PAREN, "Expect ')' after if condition.") {
            return self.fail(error);
        }
        let then_branch = match self.statement() {
            Some(s) => s,
            None => return None,
        };
        let mut else_branch = None;
        if self.match_one(TokenType::ELSE).is_some() {
            match self.statement() {
                Some(s) => else_branch = Some(s),
                None => return None,
            }
        }
        Some(Stmt::If(condition, Box::new(then_branch), Box::new(else_branch)))
    }

    /// The declarations of a block, after its `{`, and the closing `}`.
    fn block(&mut self) -> (r: Vec<Stmt>)
        requires
            old(self).wf(),
        ensures
            final(self).moved_from(*old(self)),
            final(self).errors@.len() == old(self).errors@.len() ==> (parse_block(
                old(self).tokens@,
                old(self).current as int,
                old(self).evaluate,
            ) matches Some((w, j)) && r@.len() == w.len() && fits_stmts_from(r@, w, 0)
                && final(self).current == j),
            parse_block(old(self).tokens@, old(self).current as int, old(self).evaluate) is Some
                ==> final(self).errors@.len() == old(self).errors@.len(),
        decreases old(self).tokens@.len() - old(self).current, 16nat,
    {
        let ghost t = self.tokens@;
        let ghost ev = self.evaluate;
        let ghost e0 = self.errors@.len();
        let mut statements: Vec<Stmt> = Vec::new();
        let ghost mut shapes: Seq<StmtShape> = Seq::empty();
        while !self.is_at_end() && !self.check(TokenType::RIGHT_BRACE)
            invariant
                self.moved_from(*old(self)),
                t == self.tokens@,
                ev == self.evaluate,
                e0 == old(self).errors@.len(),
                parse_block(t, old(self).current as int, ev) is Some ==> self.errors@.len() == e0,
                self.errors@.len() == e0 ==> (parse_block(t, old(self).current as int, ev)
                    == parse_block_rest(t, self.current as int, ev, shapes) && statements@.len()
                    == shapes.len() && forall|k: int|
                    0 <= k < shapes.len() ==> #[trigger] fits_stmt(statements@[k], shapes[k])),
            decreases self.tokens@.len() - self.current,
        {
            let ghost i = self.current as int;
            match self.declaration() {
                Some(stmt) => {
                    let ghost s = shape_of_stmt(parse_declaration(t, i, ev));
                    statements.push(stmt);
                    proof {
                        shapes = shapes.push(s);
                    }
                },
                None => self.synchronize(),
            }
        }
        if let Some(error) = self.consume(TokenType::RIGHT_BRACE, "Expect '}' after block.") {
            self.report(&error);
        }
        proof {
            if self.errors@.len() == e0 {
                lemma_fits_stmts(statements@, shapes, 0);
            }
        }
        statements
    }

    fn print_statement(&mut self) -> (r: Option<Stmt>)
        requires
            old(self).wf(),
        ensures
            final(self).moved_from(*old(self)),
            r is Some ==> final(self).current > old(self).current,
            r is None ==> final(self).errors@.len() > old(self).errors@.len(),
            r is Some ==> r->0 is Print,
            stmt_parsed_as(r, parse_print(old(self).tokens@, old(self).current as int), *final(self), old(self).errors@.len()),
            parse_print(old(self).tokens@, old(self).current as int) is Some ==> r is Some && final(self).errors@.len() == old(self).errors@.len(),
        decreases old(self).tokens@.len() - old(self).current, 13nat,
    {
        let value = match self.expression() {
            Ok(e) => e,
            Err(error) => return self.fail(error),
        };
        if let Some(error) = self.consume(TokenType::SEMICOLON, "Expect ';' after value.") {
            return self.fail(error);
        }
        Some(Stmt::Print(value))
    }

    /// An expression and its `;`, which only a parser with `evaluate` set insists on.
    fn expression_statement(&mut self) -> (r: Option<Stmt>)
        requires
            old(self).wf(),
        ensures
            final(self).moved_from(*old(self)),
            r is Some ==> final(self).current > old(self).current,
            r is None ==> final(self).errors@.len() > old(self).errors@.len(),
            r is Some ==> r->0 is Expression,
            stmt_parsed_as(r, parse_expression_statement(old(self).tokens@, old(self).current as int, old(self).evaluate), *final(self), old(self).errors@.len()),
            parse_expression_statement(old(self).tokens@, old(self).current as int, old(self).evaluate) is Some ==> r is Some && final(self).errors@.len() == old(self).errors@.len(),
        decreases old(self).tokens@.len() - old(self).current, 12nat,
    {
        let expr = match self.expression() {
            Ok(e) => e,
            Err(error) => return self.fail(error),
        };
        if self.evaluate {
            if let Some(error) = self.consume(TokenType::SEMICOLON, "Expect ';' after expression.") {
                return self.fail(error);
            }
        } else {
            let _ = self.match_one(TokenType::SEMICOLON);
        }
        Some(Stmt::Expression(expr))
    }
}

/// A copy of a list of tokens.
pub fn copy_tokens(v: &Vec<Token>) -> (r: Vec<Token>)
    ensures
        r@ == v@,
{
    let mut r: Vec<Token> = Vec::new();
    let mut i: usize = 0;
    while i < v.len()
        invariant
            i <= v@.len(),
            r@ == v@.take(i as int),
        decreases v.len() - i,
    {
        r.push(v[i].copy());
        assert(v@.take(i + 1) =~= v@.take(i as int).push(v@[i as int]));
        i = i + 1;
    }
    assert(v@.take(v@.len() as int) =~= v@);
    r
}


/// The parenthesized form of an expression, as `parse` prints it; a number literal in the
/// normalized form that `numbers` gives, a call as nothing.
pub open spec fn ast_text<N: Numbers>(numbers: N, e: Expr) -> Seq<char>
    decreases e,
{
    match e {
        Expr::Binary { left, operator, right } => "("@ + operator.lexeme@ + " "@ + ast_text(numbers, *left)
            + " "@ + ast_text(numbers, *right) + ")"@,
        Expr::Logical { left, operator, right } => "("@ + operator.lexeme@ + " "@ + ast_text(numbers, *left)
            + " "@ + ast_text(numbers, *right) + ")"@,
        Expr::Grouping { expression } => "(group "@ + ast_text(numbers, *expression) + ")"@,
        Expr::Literal { value } => match value {
            Literal::String(s) => s@,
            Literal::Boolean(b) => if b {
                "true"@
            } else {
                "false"@
            },
            Literal::Nothing => "nil"@,
            Literal::Number(n) => numbers.numeral_text(n)@,
            _ => Seq::empty(),
        },
        Expr::Unary { operator, right } => "("@ + operator.lexeme@ + " "@ + ast_text(numbers, *right) + ")"@,
        Expr::Variable { name } => name.lexeme@,
        Expr::Assign { name, value } => "(= "@ + name.lexeme@ + " "@ + ast_text(numbers, *value) + ")"@,
        Expr::Null => "null"@,
        Expr::Call { .. } => Seq::empty(),
    }
}

impl Expr {
    /// The parenthesized form of the expression; number literals in the normalized form that
    /// `numbers` gives.
    pub fn ast_print<N: Numbers>(&self, numbers: &N) -> (r: String)
        ensures
            r@ == ast_text(*numbers, *self),
        decreases self,
    {
        match self {
            Expr::Binary { left, operator, right } | Expr::Logical { left, operator, right } => {
                let mut s = owned("(");
                s.append(operator.lexeme.as_str());
                s.append(" ");
                s.append(left.ast_print(numbers).as_str());
                s.append(" ");
                s.append(right.ast_print(numbers).as_str());
                s.append(")");
                s
            },
            Expr::Grouping { expression } => {
                let mut s = owned("(group ");
                s.append(expression.ast_print(numbers).as_str());
                s.append(")");
                s
            },
            Expr::Literal { value } => match value {
                Literal::String(s) => s.clone(),
                Literal::Number(n) => numbers.show_numeral(n),
                Literal::Boolean(b) => if *b {
                    owned("true")
                } else {
                    owned("false")
                },
                Literal::Nothing => owned("nil"),
                Literal::Identifier(_) => String::new(),
            },
            Expr::Unary { operator, right } => {
                let mut s = owned("(");
                s.append(operator.lexeme.as_str());
                s.append(" ");
                s.append(right.ast_print(numbers).as_str());
                s.append(")");
                s
            },
            Expr::Variable { name } => name.lexeme.clone(),
            Expr::Assign { name, value } => {
                let mut s = owned("(= ");
                s.append(name.lexeme.as_str());
                s.append(" ");
                s.append(value.ast_print(numbers).as_str());
                s.append(")");
                s
            },
            Expr::Null => owned("null"),
            Expr::Call { .. } => String::new(),
        }
    }
}

/// What `parse` prints for top-level statements: the parenthesized form of each expression
/// and `print` statement, in order.
pub open spec fn printed<N: Numbers>(numbers: N, stmts: Seq<Stmt>) -> Seq<Seq<char>>
    decreases stmts.len(),
{
    if stmts.len() == 0 {
        Seq::empty()
    } else {
        printed(numbers, stmts.drop_last()) + match stmts.last() {
            Stmt::Expression(e) => seq![ast_text(numbers, e)],
            Stmt::Print(e) => seq![ast_text(numbers, e)],
            _ => Seq::empty(),
        }
    }
}

/// The characters of each line.
pub open spec fn line_texts(lines: Seq<String>) -> Seq<Seq<char>> {
    lines.map_values(|l: String| l@)
}

/// Scans and parses `source`, with expression statements needing no `;`, and lays out what
/// the `parse` command prints: the parenthesized form of each top-level expression and `print`
/// statement, or the errors and exit code 65 (70 for the declaration errors that call for it).
pub fn run_parser<N: Numbers>(source: &str, numbers: &N) -> (r: RunReport)
    requires
        source@.len() < usize::MAX,
    ensures
        source@.len() == 0 ==> r.output@.len() == 1 && r.output@[0]@ == "EOF  null"@
            && r.exit_code == 0,
        r.exit_code == 0 || r.exit_code == 65 || r.exit_code == 70,
        r.exit_code == 0 <==> r.errors@.len() == 0,
        r.exit_code != 0 ==> r.output@.len() == 0,
        source@.len() > 0 && error_count(source@, 0) > 0 ==> r.exit_code == 65
            && r.errors@.len() == error_count(source@, 0),
        source@.len() > 0 && error_count(source@, 0) == 0 ==> exists|toks: Seq<Token>, stmts: Seq<Stmt>|
            #![trigger scan_of(source@, toks), printed(*numbers, stmts)]
            {
                &&& scan_of(source@, toks)
                &&& token_spans(toks.drop_last()) == spans(source@, 0)
                &&& parse_program(toks, 0, false, Seq::empty()) is None ==> r.exit_code == 65
                    || r.exit_code == 70
                &&& parse_program(toks, 0, false, Seq::empty()) matches Some(w) ==> r.exit_code
                    == 0 && stmts.len() == w.len() && fits_stmts_from(stmts, w, 0) && line_texts(
                    r.output@,
                ) == printed(*numbers, stmts)
            },
{
    let chars = chars_of(source);
    if chars.len() == 0 {
        return empty_source_report();
    }
    let tokens = match return_tokens(source) {
        Ok(tokens) => tokens,
        Err(errors) => {
            return RunReport { output: Vec::new(), errors, exit_code: 65 };
        },
    };
    let mut parser = Parser::new(tokens, false);
    let statements = parser.parse();
    if parser.had_error {
        let code = if parser.error == 70 {
            70
        } else {
            65
        };
        assert(scan_of(source@, parser.tokens@));
        assert(printed(*numbers, statements@) == printed(*numbers, statements@));
        return RunReport { output: Vec::new(), errors: parser.errors, exit_code: code };
    }
    let mut output: Vec<String> = Vec::new();
    let mut i: usize = 0;
    assert(statements@.take(0) =~= Seq::<Stmt>::empty());
    assert(line_texts(output@) =~= Seq::<Seq<char>>::empty());
    while i < statements.len()
        invariant
            i <= statements@.len(),
            line_texts(output@) == printed(*numbers, statements@.take(i as int)),
        decreases statements.len() - i,
    {
        assert(statements@.take(i + 1).drop_last() =~= statements@.take(i as int));
        let ghost before = output@;
        match &statements[i] {
            Stmt::Expression(e) => output.push(e.ast_print(numbers)),
            Stmt::Print(e) => output.push(e.ast_print(numbers)),
            _ => {},
        }
        assert(line_texts(output@) =~= line_texts(before) + match statements@[i as int] {
            Stmt::Expression(e) => seq![ast_text(*numbers, e)],
            Stmt::Print(e) => seq![ast_text(*numbers, e)],
            _ => Seq::<Seq<char>>::empty(),
        });
        i = i + 1;
    }
    assert(statements@.take(statements@.len() as int) =~= statements@);
    RunReport { output, errors: Vec::new(), exit_code: 0 }
}

} // verus!
