use looping_lang::interpreter::{Interpreter, ScriptError, Value};
use looping_lang::lexer::{Lexer, Token};
use looping_lang::number::Number;
use looping_lang::parser::{ParseErrorKind, Parser};
use looping_lang::runtime::{get_filebox_module, get_math_module, get_style_module};
use looping_lang::semantics::RunErrorKind;

fn run(src: &str) -> (Interpreter, Result<(), ScriptError>) {
    let mut it = Interpreter::with_seed(7);
    let r = it.run_source(src);
    (it, r)
}

fn lines(src: &str) -> Vec<String> {
    let (it, r) = run(src);
    assert!(r.is_ok(), "script failed: {:?}", r);
    it.output_lines()
}

fn run_error(src: &str) -> (RunErrorKind, String, Vec<String>) {
    let (it, r) = run(src);
    match r {
        Err(ScriptError::Run(e)) => (e.kind, e.name.iter().collect(), it.output_lines()),
        other => panic!("expected a runtime error, got {:?}", other),
    }
}

fn parse_error(src: &str) -> ParseErrorKind {
    let (it, r) = run(src);
    assert!(it.output_lines().is_empty());
    match r {
        Err(ScriptError::Parse(e)) => e.kind,
        other => panic!("expected a parse error, got {:?}", other),
    }
}

fn chars(s: &str) -> Vec<char> {
    s.chars().collect()
}

#[test]
fn flat_precedence() {
    assert_eq!(lines("print(1 + 2 * 3);"), vec!["9"]);
    assert_eq!(lines("print(10 - 4 - 3);"), vec!["3"]);
}

#[test]
fn string_concatenation() {
    assert_eq!(lines("print(\"a\" + 1);"), vec!["a1"]);
    assert_eq!(lines("print(1 + \"a\");"), vec!["1a"]);
    assert_eq!(lines("print(\"x\" + true + 2.5);"), vec!["xtrue2.5"]);
}

#[test]
fn addition_of_mismatched_kinds_fails() {
    let (kind, _, _) = run_error("print(true + 1);");
    assert_eq!(kind, RunErrorKind::TypeMismatch);
}

#[test]
fn const_protection() {
    let (kind, name, out) = run_error("const x = 1; print(x); x = 2; print(x);");
    assert_eq!(kind, RunErrorKind::ConstReassignment);
    assert_eq!(name, "x");
    assert_eq!(out, vec!["1"]);
}

#[test]
fn const_redeclaration_fails() {
    let (kind, _, _) = run_error("const x = 1; let x = 2;");
    assert_eq!(kind, RunErrorKind::ConstReassignment);
}

#[test]
fn closure_snapshot() {
    assert_eq!(lines("let x = 1; fn f() { return x; } x = 2; print(f());"), vec!["1"]);
}

#[test]
fn loop_control_break() {
    let src = "for (let i = 0; i < 5; i = i + 1) { if (i == 3) { break; } print(i); }";
    assert_eq!(lines(src), vec!["0", "1", "2"]);
}

#[test]
fn loop_control_continue() {
    let src = "for (let i = 0; i < 4; i = i + 1) { if (i == 1) { continue; } print(i); }";
    assert_eq!(lines(src), vec!["0", "2", "3"]);
    let src = "let i = 0; looping (i < 4) { i = i + 1; if (i == 2) { continue; } print(i); }";
    assert_eq!(lines(src), vec!["1", "3", "4"]);
}

#[test]
fn return_leaves_loop_and_function() {
    let src = "fn first() { let i = 0; looping (true) { if (i == 2) { return i; } i = i + 1; } } print(first());";
    assert_eq!(lines(src), vec!["2"]);
    assert_eq!(lines("fn nothing() { let a = 1; } print(nothing());"), vec!["null"]);
}

#[test]
fn array_bounds() {
    assert_eq!(lines("let a = [1, 2]; print(a[1]); print(a[5]); print(a[2]);"), vec!["2", "null", "null"]);
    assert_eq!(lines("print([1, \"b\", [true]]);"), vec!["[1, b, [true]]"]);
}

#[test]
fn indexing_a_non_array_fails() {
    let (kind, _, _) = run_error("let a = 3; print(a[0]);");
    assert_eq!(kind, RunErrorKind::TypeMismatch);
}

#[test]
fn native_arity_failure() {
    let (kind, name, out) = run_error("math.pow(2); print(\"after\");");
    assert_eq!(kind, RunErrorKind::ArityMismatch(2));
    assert_eq!(name, "math.pow");
    assert!(out.is_empty());
    let (kind, _, _) = run_error("math.pow();");
    assert_eq!(kind, RunErrorKind::ArityMismatch(2));
    let (kind, name, _) = run_error("style.red(\"a\", \"b\");");
    assert_eq!(kind, RunErrorKind::ArityMismatch(1));
    assert_eq!(name, "style.red");
    let (kind, name, _) = run_error("math.random(1);");
    assert_eq!(kind, RunErrorKind::ArityMismatch(0));
    assert_eq!(name, "math.random");
}

#[test]
fn user_function_arity_failure() {
    let (kind, name, _) = run_error("fn f(a, b) { return a; } f(1);");
    assert_eq!(kind, RunErrorKind::ArityMismatch(2));
    assert_eq!(name, "f");
}

#[test]
fn undefined_reference() {
    let (kind, name, _) = run_error("print(y);");
    assert_eq!(kind, RunErrorKind::UndefinedVariable);
    assert_eq!(name, "y");
    let (kind, name, _) = run_error("nope(1);");
    assert_eq!(kind, RunErrorKind::UndefinedFunction);
    assert_eq!(name, "nope");
    let (kind, _, _) = run_error("let v = 1; v();");
    assert_eq!(kind, RunErrorKind::NotAFunction);
}

#[test]
fn determinism() {
    let src = "let a = 1; fn g(x) { return x * 2; } print(g(a) + math.random());";
    let mut p1 = Parser::new(Lexer::new(src));
    let mut p2 = Parser::new(Lexer::new(src));
    let a1 = p1.parse().unwrap();
    let a2 = p2.parse().unwrap();
    assert_eq!(format!("{:?}", a1), format!("{:?}", a2));
    let mut i1 = Interpreter::with_seed(42);
    let mut i2 = Interpreter::with_seed(42);
    assert!(i1.execute(a1).is_ok());
    assert!(i2.execute(a2).is_ok());
    assert_eq!(i1.output_lines(), i2.output_lines());
}

#[test]
fn numbers_and_division() {
    assert_eq!(lines("print(0.1 + 0.2);"), vec!["0.3"]);
    assert_eq!(lines("print(7 / 2);"), vec!["3.5"]);
    assert_eq!(lines("print(1 / 0); print(0 - 1 / 0); print(0 / 0);"), vec!["inf", "-inf", "NaN"]);
    assert_eq!(lines("print(0 - 2.5);"), vec!["-2.5"]);
    assert_eq!(lines("print(1 / 3);"), vec!["0.333333"]);
}

#[test]
fn comparisons_and_equality() {
    assert_eq!(lines("print(2 > 1); print(2 <= 1); print(3 >= 3); print(1 < 2);"), vec!["true", "false", "true", "true"]);
    assert_eq!(lines("print(1 == 1); print(\"a\" == 1); print([1, 2] == [1, 2]); print([1] != [2]);"), vec!["true", "false", "true", "true"]);
    assert_eq!(lines("let n = 0 / 0; print(n == n);"), vec!["false"]);
}

#[test]
fn math_module() {
    assert_eq!(lines("print(math.sqrt(25));"), vec!["5"]);
    assert_eq!(lines("print(math.sqrt(2));"), vec!["1.414213"]);
    assert_eq!(lines("print(math.sqrt(0 - 1));"), vec!["NaN"]);
    assert_eq!(lines("print(math.pow(2, 3)); print(math.pow(2, 0 - 1)); print(math.pow(5, 0));"), vec!["8", "0.5", "1"]);
    assert_eq!(lines("print(math.pow(2, 10)); print(math.pow(0.5, 2)); print(math.pow(1, 1000000000000));"), vec!["1024", "0.25", "1"]);
    assert_eq!(lines("print(math.pow(10, 30));"), vec!["inf"]);
    let (kind, _, _) = run_error("math.pow(2, 0.5);");
    assert_eq!(kind, RunErrorKind::BadExponent);
}

#[test]
fn random_is_a_fraction_and_follows_the_seed() {
    let src = "let r = math.random(); print(r >= 0); print(r < 1); print(r);";
    let a = lines(src);
    let b = lines(src);
    assert_eq!(&a[0..2], &["true".to_string(), "true".to_string()]);
    assert_eq!(a, b);
    assert_ne!(a[2], "0.000007");
    let other = {
        let mut it = Interpreter::with_seed(8);
        assert!(it.run_source(src).is_ok());
        it.output_lines()
    };
    assert_ne!(a[2], other[2]);
}

#[test]
fn style_module() {
    assert_eq!(lines("print(style.red(\"hi\"));"), vec!["\u{1b}[31mhi\u{1b}[0m"]);
    assert_eq!(lines("print(style.bold(5));"), vec!["\u{1b}[1m5\u{1b}[0m"]);
    assert_eq!(lines("print(style.bgBlue(\"x\"));"), vec!["\u{1b}[44mx\u{1b}[0m"]);
}

#[test]
fn file_module() {
    let mut it = Interpreter::with_seed(1);
    it.load_file("in.txt", "hello");
    let r = it.run_source("let t = fb.readFile(\"in.txt\"); fb.writeFile(\"out.txt\", t + \"!\"); print(fb.readFile(\"out.txt\"));");
    assert!(r.is_ok());
    assert_eq!(it.output_lines(), vec!["hello!"]);
    let files = it.files();
    assert!(files.contains(&("out.txt".to_string(), "hello!".to_string())));
    let (kind, name, _) = run_error("fb.readFile(\"missing.txt\");");
    assert_eq!(kind, RunErrorKind::FileNotLoaded);
    assert_eq!(name, "missing.txt");
}

#[test]
fn recursion_and_its_limit() {
    let src = "fn fact(n) { if (n <= 1) { return 1; } return n * fact(n - 1); } print(fact(5));";
    assert_eq!(lines(src), vec!["120"]);
    let (kind, _, _) = run_error("fn down(n) { return down(n + 1); } down(0);");
    assert_eq!(kind, RunErrorKind::RecursionLimit);
}

#[test]
fn condition_must_be_boolean() {
    let (kind, _, _) = run_error("if (1) { print(1); }");
    assert_eq!(kind, RunErrorKind::TypeMismatch);
}

#[test]
fn block_scope_is_flat() {
    assert_eq!(lines("let x = 1; if (true) { let x = 2; } print(x);"), vec!["2"]);
    assert_eq!(lines("if (false) print(1); else print(2);"), vec!["2"]);
}

#[test]
fn parse_errors() {
    assert_eq!(parse_error("let = 5;"), ParseErrorKind::ExpectedIdentifier);
    assert_eq!(parse_error("let x 5;"), ParseErrorKind::ExpectedAssign);
    assert_eq!(parse_error("print(1); let x = 1"), ParseErrorKind::ExpectedSymbol(';'));
    assert_eq!(parse_error("1 = 2;"), ParseErrorKind::InvalidAssignmentTarget);
    assert_eq!(parse_error("fn f(1) { }"), ParseErrorKind::ExpectedParameter);
    assert_eq!(parse_error("print(1 ! 2);"), ParseErrorKind::UnknownOperator);
    assert_eq!(parse_error("{ print(1);"), ParseErrorKind::ExpectedSymbol('}'));
    assert_eq!(parse_error("print(#);"), ParseErrorKind::UnexpectedToken);
    assert_eq!(parse_error("fn f(a b) { }"), ParseErrorKind::ExpectedSymbol(','));
    assert_eq!(parse_error("print(1 2);"), ParseErrorKind::ExpectedSymbol(','));
    assert_eq!(parse_error("let a = [1 2];"), ParseErrorKind::ExpectedSymbol(','));
    assert_eq!(parse_error("if (true) { print(1) }"), ParseErrorKind::ExpectedSymbol(';'));
    assert_eq!(parse_error("looping (true) { break }"), ParseErrorKind::ExpectedSymbol(';'));
    assert_eq!(parse_error("looping (true) { continue }"), ParseErrorKind::ExpectedSymbol(';'));
    assert_eq!(parse_error(";"), ParseErrorKind::UnexpectedToken);
    assert_eq!(parse_error("let x = ;"), ParseErrorKind::UnexpectedToken);
}

#[test]
fn parse_error_position() {
    let mut p = Parser::new(Lexer::new("let x = 1; 1 = 2;"));
    let e = p.parse().unwrap_err();
    assert_eq!(e.kind, ParseErrorKind::InvalidAssignmentTarget);
    assert_eq!(e.at, 6);
}

#[test]
fn lexer_tokens() {
    let mut lx = Lexer::new("let x = 1.5;\n x >= \"a b\" # _y2 true");
    assert_eq!(lx.next_token(), Token::Let);
    assert_eq!(lx.next_token(), Token::Identifier(chars("x")));
    assert_eq!(lx.next_token(), Token::Operator(chars("=")));
    assert_eq!(lx.next_token(), Token::Number(Number::Fixed(1_500_000)));
    assert_eq!(lx.next_token(), Token::Symbol(';'));
    assert_eq!(lx.next_token(), Token::Identifier(chars("x")));
    assert_eq!(lx.next_token(), Token::Operator(chars(">=")));
    assert_eq!(lx.next_token(), Token::String(chars("a b")));
    assert_eq!(lx.next_token(), Token::Unknown('#'));
    assert_eq!(lx.next_token(), Token::Identifier(chars("_y2")));
    assert_eq!(lx.next_token(), Token::Boolean(true));
    assert_eq!(lx.next_token(), Token::EOF);
    assert_eq!(lx.next_token(), Token::EOF);
}

#[test]
fn lexer_edge_cases() {
    let mut lx = Lexer::new("\"open");
    assert_eq!(lx.next_token(), Token::String(chars("open")));
    assert_eq!(lx.next_token(), Token::EOF);
    let mut lx = Lexer::new("looping while try 12.3456789 99999999999999999999");
    assert_eq!(lx.next_token(), Token::Looping);
    assert_eq!(lx.next_token(), Token::While);
    assert_eq!(lx.next_token(), Token::Try);
    assert_eq!(lx.next_token(), Token::Number(Number::Fixed(12_345_678)));
    assert_eq!(lx.next_token(), Token::Number(Number::PosInf));
    let toks = Lexer::new("a.b(1)").tokenize();
    assert_eq!(toks.len(), 7);
    assert_eq!(toks[6], Token::EOF);
}

#[test]
fn value_accessors() {
    assert_eq!(Value::Number(Number::Fixed(2_000_000)).as_string(), "2");
    assert_eq!(Value::String(chars("hi")).as_string(), "hi");
    assert_eq!(Value::Null.as_string(), "null");
    assert_eq!(Value::Array(vec![Value::Boolean(false), Value::Null]).as_string(), "[false, null]");
    assert_eq!(Value::Boolean(true).as_bool().unwrap(), true);
    assert_eq!(Value::Null.as_bool().unwrap_err().kind, RunErrorKind::TypeMismatch);
    assert_eq!(Value::Number(Number::NaN).as_number().unwrap(), Number::NaN);
    assert_eq!(Value::String(chars("1")).as_number().unwrap_err().kind, RunErrorKind::TypeMismatch);
}

#[test]
fn number_arithmetic() {
    let a = Number::Fixed(1_500_000);
    let b = Number::Fixed(-2_000_000);
    assert_eq!(a.add(b), Number::Fixed(-500_000));
    assert_eq!(a.mul(b), Number::Fixed(-3_000_000));
    assert_eq!(b.div(a), Number::Fixed(-1_333_333));
    assert_eq!(Number::Fixed(i64::MAX).add(Number::Fixed(1)), Number::PosInf);
    assert_eq!(Number::PosInf.add(Number::NegInf), Number::NaN);
    assert_eq!(Number::PosInf.mul(Number::Fixed(0)), Number::NaN);
    assert_eq!(Number::Fixed(5).div(Number::PosInf), Number::Fixed(0));
    assert!(Number::NegInf.lt(b));
    assert!(!Number::NaN.num_eq(Number::NaN));
    assert_eq!(Number::from_int(3), Number::Fixed(3_000_000));
}

#[test]
fn print_writes_each_argument_on_its_own_line() {
    assert_eq!(lines("print(1, \"two\", [3]);"), vec!["1", "two", "[3]"]);
}

#[test]
fn execute_keeps_going_after_top_level_signals() {
    assert_eq!(lines("print(1); return 5; break; print(2);"), vec!["1", "2"]);
}

#[test]
fn new_interpreter_has_the_builtins() {
    let mut it = Interpreter::new();
    assert!(it.run_source("print(math.sqrt(4)); print(style.green(1)); print(print);").is_ok());
    assert_eq!(it.output_lines(), vec!["2", "\u{1b}[32m1\u{1b}[0m", "[NativeFunction]"]);
}

#[test]
fn module_registries() {
    let names = |m: Vec<looping_lang::value::Binding>| -> Vec<String> { m.iter().map(|b| b.name.iter().collect()).collect() };
    assert_eq!(names(get_math_module()), vec!["sqrt", "pow", "random"]);
    assert_eq!(names(get_filebox_module()), vec!["readFile", "writeFile"]);
    let style = names(get_style_module());
    assert_eq!(style.len(), 13);
    assert!(style.contains(&"bgYellow".to_string()));
    assert!(style.contains(&"underline".to_string()));
}

#[test]
fn functions_render_as_placeholders() {
    assert_eq!(lines("fn f() { return 1; } print(f); print(\"f: \" + f);"), vec!["[Function]", "f: [Function]"]);
}

#[test]
fn separated_lists_parse() {
    assert_eq!(lines("fn add(a, b) { return a + b; } print(add(1, 2));"), vec!["3"]);
    assert_eq!(lines("fn none() { return 4; } print(none());"), vec!["4"]);
    assert_eq!(lines("print([1, 2, 3][2]);"), vec!["3"]);
}

#[test]
fn fresh_interpreters_run_alike() {
    let src = "let r = math.random(); print(r); print(math.random() < 1); fb.writeFile(\"o\", r);";
    let mut a = Interpreter::new();
    let mut b = Interpreter::new();
    assert!(a.run_source(src).is_ok());
    assert!(b.run_source(src).is_ok());
    assert_eq!(a.output_lines(), b.output_lines());
    assert_eq!(a.files(), b.files());
    let mut c = Interpreter::with_random_seed();
    assert!(c.run_source(src).is_ok());
    assert_eq!(c.output_lines()[1], "true");
}
