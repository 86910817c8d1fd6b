use lox::evaluate::{evaluate, RunReport};
use lox::number::Numbers;

struct Float;

impl Numbers for Float {
    fn numeral_of(&self, numeral: String) -> u64 {
        numeral.parse::<f64>().unwrap().to_bits()
    }
    fn count_of(&self, n: u64) -> u64 {
        (n as f64).to_bits()
    }
    fn neg_of(&self, a: u64) -> u64 {
        canonical(-f64::from_bits(a))
    }
    fn sum_of(&self, a: u64, b: u64) -> u64 {
        canonical(f64::from_bits(a) + f64::from_bits(b))
    }
    fn difference_of(&self, a: u64, b: u64) -> u64 {
        canonical(f64::from_bits(a) - f64::from_bits(b))
    }
    fn product_of(&self, a: u64, b: u64) -> u64 {
        canonical(f64::from_bits(a) * f64::from_bits(b))
    }
    fn quotient_of(&self, a: u64, b: u64) -> u64 {
        canonical(f64::from_bits(a) / f64::from_bits(b))
    }
    fn less_of(&self, a: u64, b: u64) -> bool {
        f64::from_bits(a) < f64::from_bits(b)
    }
    fn less_equal_of(&self, a: u64, b: u64) -> bool {
        f64::from_bits(a) <= f64::from_bits(b)
    }
    fn near_of(&self, a: u64, b: u64) -> bool {
        (f64::from_bits(a) - f64::from_bits(b)).abs() < f64::EPSILON
    }
    fn text_of(&self, a: u64) -> String {
        format!("{}", f64::from_bits(a))
    }
    fn numeral_text(&self, numeral: String) -> String {
        format!("{:?}", numeral.parse::<f64>().unwrap())
    }
    fn from_numeral(&self, numeral: &String) -> u64 {
        self.numeral_of(numeral.clone())
    }
    fn from_count(&self, n: u64) -> u64 {
        self.count_of(n)
    }
    fn negate(&self, a: u64) -> u64 {
        self.neg_of(a)
    }
    fn sum(&self, a: u64, b: u64) -> u64 {
        self.sum_of(a, b)
    }
    fn difference(&self, a: u64, b: u64) -> u64 {
        self.difference_of(a, b)
    }
    fn product(&self, a: u64, b: u64) -> u64 {
        self.product_of(a, b)
    }
    fn quotient(&self, a: u64, b: u64) -> u64 {
        self.quotient_of(a, b)
    }
    fn less(&self, a: u64, b: u64) -> bool {
        self.less_of(a, b)
    }
    fn less_equal(&self, a: u64, b: u64) -> bool {
        self.less_equal_of(a, b)
    }
    fn nearly_equal(&self, a: u64, b: u64) -> bool {
        self.near_of(a, b)
    }
    fn show(&self, a: u64) -> String {
        self.text_of(a)
    }
    fn show_numeral(&self, numeral: &String) -> String {
        self.numeral_text(numeral.clone())
    }
}

/// The bits of a double, with every NaN given the one canonical pattern.
fn canonical(x: f64) -> u64 {
    if x.is_nan() {
        f64::NAN.to_bits()
    } else {
        x.to_bits()
    }
}

fn run(source: &str) -> RunReport {
    evaluate(source, false, Float)
}

fn lines(report: &RunReport) -> Vec<String> {
    report.output.clone()
}

#[test]
fn arithmetic_precedence() {
    let r = run("print 1 + 2 * 3;");
    assert_eq!(lines(&r), vec!["7"]);
    assert_eq!(r.exit_code, 0);
}

#[test]
fn block_shadowing() {
    let r = run("var a = 1; { var a = 2; print a; } print a;");
    assert_eq!(lines(&r), vec!["2", "1"]);
}

#[test]
fn closure_counter() {
    let r = run("fun mk() { var i = 0; fun inc() { i = i + 1; print i; } return inc; } var c = mk(); c(); c(); c();");
    assert_eq!(lines(&r), vec!["1", "2", "3"]);
}

#[test]
fn for_loop_counts() {
    let r = run("for (var i = 0; i < 3; i = i + 1) print i;");
    assert_eq!(lines(&r), vec!["0", "1", "2"]);
}

#[test]
fn strings_and_logic() {
    let r = run("print \"a\" + \"b\"; print nil or \"x\"; print false and 1;");
    assert_eq!(lines(&r), vec!["ab", "x", "false"]);
}

#[test]
fn recursive_fibonacci() {
    let r = run("fun f(n) { if (n <= 1) return n; return f(n-1) + f(n-2); } print f(10);");
    assert_eq!(lines(&r), vec!["55"]);
}

#[test]
fn evaluate_mode_expression() {
    let r = evaluate("1 + 2", true, Float);
    assert_eq!(lines(&r), vec!["3"]);
    assert_eq!(r.exit_code, 0);
}

#[test]
fn undefined_variable_error() {
    let r = run("print a;");
    assert!(r.output.is_empty());
    assert_eq!(r.errors, vec!["[line 1] Runtime Error: Undefined variable 'a'."]);
    assert_eq!(r.exit_code, 70);
}

#[test]
fn empty_source() {
    let r = run("");
    assert_eq!(lines(&r), vec!["EOF  null"]);
    assert_eq!(r.exit_code, 0);
}

#[test]
fn for_equals_while_lowering() {
    let a = run("for (var i = 0; i < 3; i = i + 1) { print i * 2; }");
    let b = run("{ var i = 0; while (i < 3) { { print i * 2; } i = i + 1; } }");
    assert_eq!(lines(&a), lines(&b));
    assert_eq!(lines(&a), vec!["0", "2", "4"]);
}

#[test]
fn for_without_clauses_parts() {
    let r = run("var i = 0; for (; i < 2;) { print i; i = i + 1; }");
    assert_eq!(lines(&r), vec!["0", "1"]);
}

#[test]
fn or_skips_right_when_left_truthy() {
    let r = run("var n = 0; fun bump() { n = n + 1; return true; } print true or bump(); print n;");
    assert_eq!(lines(&r), vec!["true", "0"]);
}

#[test]
fn or_evaluates_right_when_left_falsy() {
    let r = run("var n = 0; fun bump() { n = n + 1; return 7; } print false or bump(); print n;");
    assert_eq!(lines(&r), vec!["7", "1"]);
}

#[test]
fn and_skips_right_when_left_falsy() {
    let r = run("var n = 0; fun bump() { n = n + 1; return 1; } print nil and bump(); print n;");
    assert_eq!(lines(&r), vec!["nil", "0"]);
}

#[test]
fn and_evaluates_right_when_left_truthy() {
    let r = run("var n = 0; fun bump() { n = n + 1; return 1; } print 0 and bump(); print n;");
    assert_eq!(lines(&r), vec!["1", "1"]);
}

#[test]
fn arity_mismatch_error() {
    let r = run("fun f(a, b) { return a; }\nprint f(1);");
    assert_eq!(r.errors, vec!["[line 2] Runtime Error: Expected 2 arguments but got 1."]);
    assert_eq!(r.exit_code, 70);
}

#[test]
fn arity_match_runs() {
    let r = run("fun f(a, b) { return a + b; } print f(1, 2);");
    assert_eq!(lines(&r), vec!["3"]);
}

#[test]
fn closure_sees_later_assignment() {
    let r = run("var x = 1; fun show() { print x; } x = 2; show(); x = 3; show();");
    assert_eq!(lines(&r), vec!["2", "3"]);
}

#[test]
fn dynamic_resolution_of_shadowed_name() {
    let r = run("var a = \"outer\"; { fun f() { print a; } var a = \"inner\"; f(); }");
    assert_eq!(lines(&r), vec!["inner"]);
}

#[test]
fn assignment_updates_enclosing_scope() {
    let r = run("var a = 1; { a = 5; var b = a; print b; } print a;");
    assert_eq!(lines(&r), vec!["5", "5"]);
}

#[test]
fn assign_undefined_error() {
    let r = run("x = 1;");
    assert_eq!(r.errors, vec!["[line 1] Runtime Error: Undefined variable 'x'."]);
}

#[test]
fn call_non_function_error() {
    let r = run("var s = \"no\"; s();");
    assert_eq!(r.errors, vec!["[line 1] Runtime Error: Can only call functions and classes."]);
}

#[test]
fn add_mismatch_error() {
    let r = run("print 1 + \"a\";");
    assert_eq!(r.errors, vec!["[line 1] Runtime Error: Operands must be two numbers or two strings."]);
}

#[test]
fn numeric_operand_error() {
    let r = run("print 2 < \"a\";");
    assert_eq!(r.errors, vec!["[line 1] Runtime Error: Operands must be numbers."]);
}

#[test]
fn negate_operand_error() {
    let r = run("print -\"a\";");
    assert_eq!(r.errors, vec!["[line 1] Runtime Error: Operand must be a number."]);
}

#[test]
fn output_before_error_is_kept() {
    let r = run("print 1;\nprint nope;");
    assert_eq!(lines(&r), vec!["1"]);
    assert_eq!(r.errors, vec!["[line 2] Runtime Error: Undefined variable 'nope'."]);
}

#[test]
fn truthiness_and_equality() {
    let r = run("print !nil; print !0; print !\"\"; print 1 == 1; print nil == nil; print \"a\" != \"a\"; print 1 == \"1\";");
    assert_eq!(lines(&r), vec!["true", "false", "false", "true", "true", "false", "false"]);
}

#[test]
fn division_and_display() {
    let r = run("print 7 / 2; print 1 / 0; print 10 - 4 * 2; print -3;");
    assert_eq!(lines(&r), vec!["3.5", "inf", "2", "-3"]);
}

#[test]
fn function_and_native_display() {
    let r = run("fun hello() {} print hello; print clock;");
    assert_eq!(lines(&r), vec!["<fn hello>", "<native fn>"]);
}

#[test]
fn clock_returns_number() {
    let r = run("print clock() > 0;");
    assert_eq!(lines(&r), vec!["true"]);
}

#[test]
fn while_loop_and_return_unwinds() {
    let r = run("fun first() { var i = 0; while (true) { if (i == 3) return i; i = i + 1; } } print first();");
    assert_eq!(lines(&r), vec!["3"]);
}

#[test]
fn bare_return_gives_nil() {
    let r = run("fun f() { return; } print f();");
    assert_eq!(lines(&r), vec!["nil"]);
}

#[test]
fn var_without_initializer_is_nil() {
    let r = run("var x; print x;");
    assert_eq!(lines(&r), vec!["nil"]);
}

#[test]
fn run_mode_needs_semicolon() {
    let r = run("print 1");
    assert_eq!(r.exit_code, 65);
    assert!(r.output.is_empty());
}

#[test]
fn lexical_error_exit_code() {
    let r = run("print 1; @");
    assert_eq!(r.exit_code, 65);
    assert_eq!(r.errors, vec!["[line 1] Error: Unexpected character: @"]);
}

#[test]
fn missing_variable_name_exit_code() {
    let r = run("var 1 = 2;");
    assert_eq!(r.exit_code, 70);
}

#[test]
fn scope_restored_after_return() {
    let r = run("var a = \"global\"; fun f() { var a = \"local\"; { return a; } } print f(); print a;");
    assert_eq!(lines(&r), vec!["local", "global"]);
}
