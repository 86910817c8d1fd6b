use lox::lexer::{keywords, return_tokens, run_lexer, Lexer, Literal, TokenType};
use lox::number::Numbers;
use lox::parse::{run_parser, Expr, Parser, Stmt};

struct Float;

impl Numbers for Float {
    fn numeral_of(&self, numeral: String) -> u64 {
        numeral.parse::<f64>().unwrap().to_bits()
    }
    fn count_of(&self, n: u64) -> u64 {
        (n as f64).to_bits()
    }
    fn neg_of(&self, a: u64) -> u64 {
        canonical(-f64::from_bits(a))
    }
    fn sum_of(&self, a: u64, b: u64) -> u64 {
        canonical(f64::from_bits(a) + f64::from_bits(b))
    }
    fn difference_of(&self, a: u64, b: u64) -> u64 {
        canonical(f64::from_bits(a) - f64::from_bits(b))
    }
    fn product_of(&self, a: u64, b: u64) -> u64 {
        canonical(f64::from_bits(a) * f64::from_bits(b))
    }
    fn quotient_of(&self, a: u64, b: u64) -> u64 {
        canonical(f64::from_bits(a) / f64::from_bits(b))
    }
    fn less_of(&self, a: u64, b: u64) -> bool {
        f64::from_bits(a) < f64::from_bits(b)
    }
    fn less_equal_of(&self, a: u64, b: u64) -> bool {
        f64::from_bits(a) <= f64::from_bits(b)
    }
    fn near_of(&self, a: u64, b: u64) -> bool {
        (f64::from_bits(a) - f64::from_bits(b)).abs() < f64::EPSILON
    }
    fn text_of(&self, a: u64) -> String {
        format!("{}", f64::from_bits(a))
    }
    fn numeral_text(&self, numeral: String) -> String {
        format!("{:?}", numeral.parse::<f64>().unwrap())
    }
    fn from_numeral(&self, numeral: &String) -> u64 {
        self.numeral_of(numeral.clone())
    }
    fn from_count(&self, n: u64) -> u64 {
        self.count_of(n)
    }
    fn negate(&self, a: u64) -> u64 {
        self.neg_of(a)
    }
    fn sum(&self, a: u64, b: u64) -> u64 {
        self.sum_of(a, b)
    }
    fn difference(&self, a: u64, b: u64) -> u64 {
        self.difference_of(a, b)
    }
    fn product(&self, a: u64, b: u64) -> u64 {
        self.product_of(a, b)
    }
    fn quotient(&self, a: u64, b: u64) -> u64 {
        self.quotient_of(a, b)
    }
    fn less(&self, a: u64, b: u64) -> bool {
        self.less_of(a, b)
    }
    fn less_equal(&self, a: u64, b: u64) -> bool {
        self.less_equal_of(a, b)
    }
    fn nearly_equal(&self, a: u64, b: u64) -> bool {
        self.near_of(a, b)
    }
    fn show(&self, a: u64) -> String {
        self.text_of(a)
    }
    fn show_numeral(&self, numeral: &String) -> String {
        self.numeral_text(numeral.clone())
    }
}

/// The bits of a double, with every NaN given the one canonical pattern.
fn canonical(x: f64) -> u64 {
    if x.is_nan() {
        f64::NAN.to_bits()
    } else {
        x.to_bits()
    }
}

fn kinds(source: &str) -> Vec<TokenType> {
    return_tokens(source).ok().unwrap().iter().map(|t| t.token_type).collect()
}

#[test]
fn tokenize_lines() {
    let r = run_lexer("var x = 12;", &Float);
    assert_eq!(
        r.lines,
        vec!["VAR var null", "IDENTIFIER x null", "EQUAL = null", "NUMBER 12 12.0", "SEMICOLON ; null", "EOF  null"]
    );
    assert_eq!(r.exit_code, 0);
}

#[test]
fn tokenize_string_literal() {
    let r = run_lexer("\"hi there\"", &Float);
    assert_eq!(r.lines, vec!["STRING \"hi there\" hi there", "EOF  null"]);
}

#[test]
fn tokenize_empty_source() {
    let r = run_lexer("", &Float);
    assert_eq!(r.lines, vec!["EOF  null"]);
    assert_eq!(r.exit_code, 0);
}

#[test]
fn tokenize_errors_keep_going() {
    let r = run_lexer("#(\n\"open", &Float);
    assert_eq!(r.lines, vec!["LEFT_PAREN ( null", "EOF  null"]);
    assert_eq!(r.errors, vec!["[line 1] Error: Unexpected character: #", "[line 2] Error: Unterminated string."]);
    assert_eq!(r.exit_code, 65);
}

#[test]
fn two_character_operators() {
    assert_eq!(
        kinds("! != = == < <= > >="),
        vec![
            TokenType::BANG,
            TokenType::BANG_EQUAL,
            TokenType::EQUAL,
            TokenType::EQUAL_EQUAL,
            TokenType::LESS,
            TokenType::LESS_EQUAL,
            TokenType::GREATER,
            TokenType::GREATER_EQUAL,
            TokenType::EOF
        ]
    );
}

#[test]
fn comments_and_slash() {
    assert_eq!(kinds("a / b // note\nc"), vec![TokenType::IDENTIFIER, TokenType::SLASH, TokenType::IDENTIFIER, TokenType::IDENTIFIER, TokenType::EOF]);
}

#[test]
fn trailing_dot_not_consumed() {
    let toks = return_tokens("12.").ok().unwrap();
    assert_eq!(toks[0].lexeme, "12");
    assert_eq!(toks[1].token_type, TokenType::DOT);
    let toks = return_tokens("3.25").ok().unwrap();
    assert_eq!(toks[0].lexeme, "3.25");
    assert!(matches!(&toks[0].literal, Literal::Number(n) if n == "3.25"));
}

#[test]
fn reserved_words() {
    assert_eq!(keywords("while"), Some(TokenType::WHILE));
    assert_eq!(keywords("and"), Some(TokenType::AND));
    assert_eq!(keywords("whiles"), None);
    assert_eq!(kinds("orchid or"), vec![TokenType::IDENTIFIER, TokenType::OR, TokenType::EOF]);
}

#[test]
fn token_positions_round_trip() {
    let source = "var s = \"a\nb\";\nprint s;";
    let chars: Vec<char> = source.chars().collect();
    let toks = return_tokens(source).ok().unwrap();
    for t in &toks[..toks.len() - 1] {
        let n = t.lexeme.chars().count();
        let text: String = chars[t.offset..t.offset + n].iter().collect();
        assert_eq!(text, t.lexeme);
        let newlines = chars[..t.offset + n].iter().filter(|c| **c == '\n').count();
        assert_eq!(t.line, 1 + newlines);
    }
    let eof = toks.last().unwrap();
    assert_eq!(eof.token_type, TokenType::EOF);
    assert_eq!(eof.line, 3);
    assert_eq!(toks[3].line, 2);
}

#[test]
fn eof_line_counts_final_newline() {
    let toks = return_tokens("1\n2\n").ok().unwrap();
    assert_eq!(toks.last().unwrap().line, 3);
}

#[test]
fn lexer_error_report_text() {
    let mut lexer = Lexer::new();
    lexer.error(4, "Boom.");
    assert!(lexer.had_error);
    assert_eq!(lexer.errors, vec!["[line 4] Error: Boom."]);
}

#[test]
fn parse_prints_precedence() {
    let r = run_parser("1 + 2 * 3", &Float);
    assert_eq!(r.output, vec!["(+ 1.0 (* 2.0 3.0))"]);
    assert_eq!(r.exit_code, 0);
}

#[test]
fn parse_prints_grouping_unary_logic() {
    let r = run_parser("-(1) == !true or \"s\"", &Float);
    assert_eq!(r.output, vec!["(or (== (- (group 1.0)) (! true)) s)"]);
}

#[test]
fn parse_prints_assignment() {
    let r = run_parser("a = b = nil", &Float);
    assert_eq!(r.output, vec!["(= a (= b nil))"]);
}

#[test]
fn parse_error_reports_line() {
    let r = run_parser("(1 + 2", &Float);
    assert_eq!(r.exit_code, 65);
    assert_eq!(r.errors, vec!["[Parse error at line 1]: Expect ')' after expression."]);
}

#[test]
fn parse_expected_expression() {
    let r = run_parser("1 +", &Float);
    assert_eq!(r.exit_code, 65);
    assert_eq!(r.errors, vec!["[Parse error at line 1]: Expected expression."]);
}

#[test]
fn invalid_assignment_target() {
    let r = run_parser("1 = 2", &Float);
    assert_eq!(r.exit_code, 65);
    assert_eq!(r.errors, vec!["[Parse error at line 1]: Invalid assignment target."]);
}

#[test]
fn parser_is_deterministic() {
    let tokens = return_tokens("var a = 1; while (a < 3) { print a; a = a + 1; }").ok().unwrap();
    let mut p1 = Parser::new(tokens.clone(), true);
    let mut p2 = Parser::new(tokens, true);
    let s1 = p1.parse();
    let s2 = p2.parse();
    assert_eq!(format!("{:?}", s1), format!("{:?}", s2));
    assert!(!p1.had_error);
}

#[test]
fn for_is_lowered_to_while() {
    let tokens = return_tokens("for (var i = 0; i < 3; i = i + 1) print i;").ok().unwrap();
    let mut p = Parser::new(tokens, true);
    let stmts = p.parse();
    assert_eq!(stmts.len(), 1);
    match &stmts[0] {
        Stmt::Block(v) => {
            assert_eq!(v.len(), 2);
            assert!(matches!(v[0], Stmt::Var(_, _)));
            match &v[1] {
                Stmt::While(cond, body) => {
                    assert!(matches!(cond, Expr::Binary { .. }));
                    match &**body {
                        Stmt::Block(inner) => {
                            assert_eq!(inner.len(), 2);
                            assert!(matches!(inner[0], Stmt::Print(_)));
                            assert!(matches!(inner[1], Stmt::Expression(Expr::Assign { .. })));
                        }
                        _ => panic!("loop body is not a block"),
                    }
                }
                _ => panic!("no while loop"),
            }
        }
        _ => panic!("no block"),
    }
}

#[test]
fn for_without_condition_loops_on_true() {
    let tokens = return_tokens("for (;;) print 1;").ok().unwrap();
    let mut p = Parser::new(tokens, true);
    let stmts = p.parse();
    match &stmts[0] {
        Stmt::While(Expr::Literal { value: Literal::Boolean(true) }, body) => {
            assert!(matches!(**body, Stmt::Print(_)));
        }
        _ => panic!("expected a bare while loop"),
    }
}

#[test]
fn call_keeps_closing_paren() {
    let tokens = return_tokens("f(1, 2);").ok().unwrap();
    let mut p = Parser::new(tokens, true);
    let stmts = p.parse();
    match &stmts[0] {
        Stmt::Expression(Expr::Call { paren, arguments, .. }) => {
            assert_eq!(paren.token_type, TokenType::RIGHT_PAREN);
            assert_eq!(arguments.len(), 2);
        }
        _ => panic!("expected a call"),
    }
}

#[test]
fn recovery_continues_after_error() {
    let tokens = return_tokens("var = 1; print 2; print ;\nprint 3;").ok().unwrap();
    let mut p = Parser::new(tokens, true);
    let stmts = p.parse();
    assert!(p.had_error);
    assert_eq!(p.errors.len(), 2);
    assert_eq!(stmts.len(), 2);
}
