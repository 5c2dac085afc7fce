use rlox::ast::AstArena;
use rlox::ast::StmtId;
use rlox::interpreter::Interpreter;
use rlox::interpreter::Outcome;
use rlox::interpreter::Request;
use rlox::object::ArithOp;
use rlox::object::Number;
use rlox::object::Object;
use rlox::parser::Parser;
use rlox::resolver::Resolver;
use rlox::scanner::Scanner;

fn show(value: &Object) -> String {
    match value {
        Object::Number(n) => format!("{}", f64::from_bits(n.bits)),
        other => other.text().unwrap(),
    }
}

/// Steps the machine until the run has ended, doing what it asks for.
fn drive(machine: &mut Interpreter, arena: &AstArena, out: &mut Vec<String>) -> Outcome {
    let mut steps = 0u64;
    loop {
        steps += 1;
        assert!(steps < 10_000_000, "the program does not end");
        match machine.step(arena) {
            Request::Continue => {}
            Request::Print(value) => out.push(show(&value)),
            Request::ParseNumber(digits) => {
                let value: f64 = digits.parse().unwrap();
                machine.supply(Number::new(value.to_bits()));
            }
            Request::Arith { op, left, right } => {
                let (a, b) = (f64::from_bits(left.bits), f64::from_bits(right.bits));
                let value = match op {
                    ArithOp::Add => a + b,
                    ArithOp::Sub => a - b,
                    ArithOp::Mul => a * b,
                    ArithOp::Div => a / b,
                };
                machine.supply(Number::new(value.to_bits()));
            }
            Request::Clock => machine.supply(Number::new(1234.0f64.to_bits())),
            Request::Waiting => panic!("the machine waits for a number that nobody was asked for"),
            Request::Finished(outcome) => return outcome,
        }
    }
}

fn evaluate(src: &str) -> Result<Object, String> {
    let tokens = Scanner::new(src).unwrap().scan_tokens().expect("token error");
    let mut arena = AstArena::new();
    let expr = Parser::new(tokens).expression(&mut arena).expect("syntax error");
    let id = arena.alloc_expr(expr).unwrap();
    let mut machine = Interpreter::new();
    machine.start_expression(id);
    let mut out = Vec::new();
    match drive(&mut machine, &arena, &mut out) {
        Outcome::Evaluated(v) => Ok(v),
        Outcome::Failed(e) => Err(e.message),
        Outcome::Executed => panic!("no value"),
    }
}

fn number(src: &str) -> f64 {
    match evaluate(src).unwrap() {
        Object::Number(n) => f64::from_bits(n.bits),
        other => panic!("not a number: {other:?}"),
    }
}

fn boolean(src: &str) -> bool {
    match evaluate(src).unwrap() {
        Object::Boolean(b) => b,
        other => panic!("not a boolean: {other:?}"),
    }
}

fn load(src: &str, arena: &mut AstArena, machine: &mut Interpreter) -> Vec<StmtId> {
    let tokens = Scanner::new(src).unwrap().scan_tokens().expect("token error");
    let program = Parser::new(tokens).parse(arena).expect("syntax error");
    Resolver::new().resolve(arena, &program, &mut machine.depths);
    program
}

fn run(src: &str) -> (Vec<String>, Result<(), String>) {
    let mut arena = AstArena::new();
    let mut machine = Interpreter::new();
    let program = load(src, &mut arena, &mut machine);
    machine.start(program);
    let mut out = Vec::new();
    let result = match drive(&mut machine, &arena, &mut out) {
        Outcome::Executed => Ok(()),
        Outcome::Failed(e) => Err(e.message),
        Outcome::Evaluated(_) => panic!("a program has no value"),
    };
    assert_eq!(machine.env.chain.end, Some(machine.env.global), "a scope was left open");
    assert!(machine.kont.is_empty());
    (out, result)
}

fn prints(src: &str) -> Vec<String> {
    let (out, result) = run(src);
    result.unwrap();
    out
}

#[test]
fn interpreter_interpret_unary_bang() {
    assert!(!boolean("!9"));
    assert!(!boolean("!\"hello\""));
    assert!(!boolean("!-0"));
    assert!(boolean("!false"));
    assert!(!boolean("!(1 - 1)"));
}

#[test]
fn interpreter_interpret_unary_minus() {
    assert_eq!(number("-1"), -1.);
    assert_eq!(number("--1"), 1.);
    assert_eq!(number("-(-1 - 2)"), 3.);
}

#[test]
fn interpreter_interpret_unary_minus_err() {
    evaluate("-\"h\"").expect_err("can't negate strings");
    assert_eq!(evaluate("-\"h\"").unwrap_err(), "Invalid operand: Object is not of type Number");
    assert_eq!(evaluate("-nil").unwrap_err(), "Invalid operand: Object is nil");
}

#[test]
fn interpreter_interpret_binary_plus() {
    assert_eq!(number("1 + 2"), 3.);
    match evaluate("\"Hello\" + \" \" + \"World!\"").unwrap() {
        Object::String(s) => assert_eq!(s, "Hello World!"),
        other => panic!("not a string: {other:?}"),
    }
    assert_eq!(number("1 + -2"), -1.);
}

#[test]
fn interpreter_interpret_binary_plus_err() {
    evaluate("\"h\" + 1").expect_err("can't add strings and numbers");
    assert_eq!(
        evaluate("\"h\" + 1").unwrap_err(),
        "Invalid operand: Objects not both String or Number"
    );
}

#[test]
fn arithmetic_follows_doubles() {
    assert_eq!(number("1 + 2 * 3"), 7.);
    assert_eq!(number("(1 + 2) * 3"), 9.);
    assert_eq!(number("7 / 2"), 3.5);
    assert_eq!(number("1 / 0"), f64::INFINITY);
    assert_eq!(number("-1 / 0"), f64::NEG_INFINITY);
    assert!(number("0 / 0").is_nan());
    assert_eq!(number("0.1 + 0.2"), 0.1 + 0.2);
    assert_eq!(evaluate("1 - nil").unwrap_err(), "Invalid operand: Object is nil");
    assert_eq!(evaluate("nil * 1").unwrap_err(), "Invalid operand: Object is nil");
    assert_eq!(evaluate("true / 1").unwrap_err(), "Invalid operand: Object is not of type Number");
    assert_eq!(evaluate("\"a\" - \"b\"").unwrap_err(), "Invalid operand: Object is not of type Number");
}

#[test]
fn comparison_is_for_numbers_only() {
    assert!(boolean("1 < 2"));
    assert!(boolean("2 <= 2"));
    assert!(boolean("3 > 2"));
    assert!(boolean("3 >= 3"));
    assert!(!boolean("2 < 1"));
    assert!(boolean("-1 < 0"));
    assert!(boolean("-2 < -1"));
    assert!(!boolean("-1 < -2"));
    assert!(boolean("-0 >= 0"));
    assert!(!boolean("-0 < 0"));
    assert!(!boolean("\"a\" < \"b\""));
    assert!(!boolean("nil <= nil"));
    assert!(!boolean("true > false"));
    assert!(!boolean("1 < \"2\""));
    assert!(!boolean("0/0 < 1"));
    assert!(!boolean("0/0 >= 0/0"));
}

#[test]
fn equality_is_for_all_values() {
    assert!(boolean("nil == nil"));
    assert!(!boolean("1 == \"1\""));
    assert!(boolean("1 == 1"));
    assert!(boolean("0 == -0"));
    assert!(!boolean("0/0 == 0/0"));
    assert!(boolean("0/0 != 0/0"));
    assert!(boolean("\"a\" == \"a\""));
    assert!(boolean("\"a\" != \"b\""));
    assert!(boolean("true == true"));
    assert!(!boolean("true == 1"));
    assert!(!boolean("nil == false"));
    assert!(boolean("clock == clock"));
}

#[test]
fn scenario_precedence() {
    assert_eq!(prints("print 1 + 2 * 3;"), vec!["7"]);
}

#[test]
fn scenario_concatenation() {
    assert_eq!(prints("print \"foo\" + \"bar\";"), vec!["foobar"]);
}

#[test]
fn scenario_shadowing() {
    assert_eq!(prints("var a = 1; { var a = 2; print a; } print a;"), vec!["2", "1"]);
}

#[test]
fn scenario_counter_closure() {
    assert_eq!(
        prints(
            "fun make(){ var x = 0; fun inc(){ x = x+1; return x; } return inc; } \
             var c = make(); print c(); print c();"
        ),
        vec!["1", "2"]
    );
}

#[test]
fn scenario_for_loop() {
    assert_eq!(prints("var a = 0; for (var i = 0; i < 3; i = i + 1) a = a + i; print a;"), vec!["3"]);
}

#[test]
fn scenario_equality_and_logic() {
    assert_eq!(
        prints("print nil == nil; print 1 == \"1\"; print true and 0;"),
        vec!["true", "false", "0"]
    );
}

#[test]
fn scenario_undefined_variable() {
    let (out, result) = run("print undefined_variable;");
    assert!(out.is_empty());
    assert_eq!(result.unwrap_err(), "Undefined variable.");
}

#[test]
fn closures_keep_their_scopes_apart() {
    assert_eq!(
        prints(
            "fun make(){ var x = 0; fun inc(){ x = x+1; return x; } return inc; } \
             var a = make(); var b = make(); print a(); print a(); print b(); print a();"
        ),
        vec!["1", "2", "1", "3"]
    );
}

#[test]
fn closure_sees_the_scope_of_its_declaration() {
    assert_eq!(
        prints(
            "var a = \"global\"; { fun show() { print a; } show(); var a = \"block\"; show(); }"
        ),
        vec!["global", "global"]
    );
}

#[test]
fn function_body_does_not_see_the_caller() {
    let (out, result) = run("fun f() { print hidden; } fun g() { var hidden = 1; f(); } g();");
    assert!(out.is_empty());
    assert_eq!(result.unwrap_err(), "Undefined variable.");
}

#[test]
fn short_circuit_skips_the_right_operand() {
    assert_eq!(
        prints(
            "fun loud() { print \"evaluated\"; return true; } \
             print false and loud(); print true or loud(); print nil and loud(); \
             print true and loud(); print false or loud();"
        ),
        vec!["false", "true", "nil", "evaluated", "true", "evaluated", "true"]
    );
}

#[test]
fn logical_operators_give_an_operand() {
    assert_eq!(
        prints("print 1 or 2; print nil or \"x\"; print 1 and 2; print false and 2;"),
        vec!["1", "x", "2", "false"]
    );
}

#[test]
fn while_loops_and_blocks() {
    assert_eq!(
        prints("var i = 0; while (i < 3) { print i; i = i + 1; } print \"done\";"),
        vec!["0", "1", "2", "done"]
    );
}

#[test]
fn if_chooses_by_truth() {
    assert_eq!(
        prints(
            "if (0) print \"zero\"; if (\"\") print \"empty\"; if (nil) print \"nil\"; \
             else print \"else\"; if (false) print \"false\";"
        ),
        vec!["zero", "empty", "else"]
    );
}

#[test]
fn recursion() {
    assert_eq!(
        prints("fun fib(n) { if (n < 2) return n; return fib(n - 1) + fib(n - 2); } print fib(15);"),
        vec!["610"]
    );
}

#[test]
fn return_leaves_loops_and_blocks() {
    assert_eq!(
        prints(
            "fun find() { var i = 0; while (true) { { if (i == 3) { return i; } } i = i + 1; } } \
             print find(); var after = 1; { var inner = 2; print after + inner; }"
        ),
        vec!["3", "3"]
    );
}

#[test]
fn function_without_return_gives_nil() {
    assert_eq!(prints("fun f() { 1; } print f(); fun g() { return; } print g();"), vec!["nil", "nil"]);
}

#[test]
fn functions_and_natives_are_written_by_name() {
    assert_eq!(prints("fun f() {} print f; print clock;"), vec!["<fn f>", "<native fn clock>"]);
}

#[test]
fn clock_asks_the_host() {
    assert_eq!(prints("print clock();"), vec!["1234"]);
    assert_eq!(prints("print clock() - clock();"), vec!["0"]);
}

#[test]
fn calling_what_cannot_be_called() {
    assert_eq!(run("\"text\"();").1.unwrap_err(), "Object is not a callable.");
    assert_eq!(run("nil();").1.unwrap_err(), "Object is not a callable.");
    assert_eq!(run("var x = 1; x(2);").1.unwrap_err(), "Object is not a callable.");
}

#[test]
fn calling_with_the_wrong_number_of_arguments() {
    assert_eq!(run("fun f(a, b) {} f(1);").1.unwrap_err(), "Expected 2 arguments but found 1");
    assert_eq!(run("fun f() {} f(1, 2, 3);").1.unwrap_err(), "Expected 0 arguments but found 3");
    assert_eq!(run("clock(1);").1.unwrap_err(), "Expected 0 arguments but found 1");
}

#[test]
fn arguments_are_evaluated_from_left_to_right() {
    assert_eq!(
        prints(
            "fun say(x) { print x; return x; } fun both(a, b) { return a + b; } \
             print both(say(\"l\"), say(\"r\"));"
        ),
        vec!["l", "r", "lr"]
    );
}

#[test]
fn operands_are_evaluated_from_left_to_right() {
    assert_eq!(
        prints("fun say(x) { print x; return x; } print say(1) - say(2);"),
        vec!["1", "2", "-1"]
    );
}

#[test]
fn assignment_needs_a_declaration() {
    assert_eq!(run("x = 1;").1.unwrap_err(), "Undefined variable 'x'.");
    assert_eq!(prints("var x; print x; x = 2; print x; print x = 3;"), vec!["nil", "2", "3"]);
}

#[test]
fn return_at_top_level_is_an_error() {
    let (out, result) = run("print 1; return 2; print 3;");
    assert_eq!(out, vec!["1"]);
    assert_eq!(result.unwrap_err(), "Invalid return statement.");
}

#[test]
fn an_error_inside_calls_closes_every_scope() {
    let (out, result) = run("fun f() { { var a = 1; { print a; nil(); } } } { f(); }");
    assert_eq!(out, vec!["1"]);
    assert_eq!(result.unwrap_err(), "Object is not a callable.");
}

#[test]
fn definitions_persist_between_programs() {
    let mut arena = AstArena::new();
    let mut machine = Interpreter::new();
    let mut out = Vec::new();
    let first = load("var a = 1; fun twice(x) { return x + x; }", &mut arena, &mut machine);
    machine.start(first);
    assert!(matches!(drive(&mut machine, &arena, &mut out), Outcome::Executed));
    let second = load("a = a + 1; print twice(a);", &mut arena, &mut machine);
    machine.start(second);
    assert!(matches!(drive(&mut machine, &arena, &mut out), Outcome::Executed));
    let third = load("print missing;", &mut arena, &mut machine);
    machine.start(third);
    assert!(matches!(drive(&mut machine, &arena, &mut out), Outcome::Failed(_)));
    let fourth = load("print a;", &mut arena, &mut machine);
    machine.start(fourth);
    assert!(matches!(drive(&mut machine, &arena, &mut out), Outcome::Executed));
    assert_eq!(out, vec!["4", "2"]);
}

#[test]
fn a_waiting_machine_says_so() {
    let tokens = Scanner::new("1 + 2").unwrap().scan_tokens().unwrap();
    let mut arena = AstArena::new();
    let expr = Parser::new(tokens).expression(&mut arena).unwrap();
    let id = arena.alloc_expr(expr).unwrap();
    let mut machine = Interpreter::new();
    machine.start_expression(id);
    assert!(matches!(machine.step(&arena), Request::Continue));
    assert!(matches!(machine.step(&arena), Request::ParseNumber(d) if d == "1"));
    assert!(matches!(machine.step(&arena), Request::Waiting));
    assert!(matches!(machine.step(&arena), Request::Waiting));
    machine.supply(Number::new(1.0f64.to_bits()));
    machine.supply(Number::new(5.0f64.to_bits()));
    assert!(matches!(machine.step(&arena), Request::Continue));
    assert!(matches!(machine.step(&arena), Request::ParseNumber(d) if d == "2"));
    machine.supply(Number::new(2.0f64.to_bits()));
    assert!(matches!(
        machine.step(&arena),
        Request::Arith { op: ArithOp::Add, left, right }
            if f64::from_bits(left.bits) == 1.0 && f64::from_bits(right.bits) == 2.0
    ));
    machine.supply(Number::new(3.0f64.to_bits()));
    assert!(matches!(
        machine.step(&arena),
        Request::Finished(Outcome::Evaluated(Object::Number(n))) if f64::from_bits(n.bits) == 3.0
    ));
    assert!(matches!(machine.step(&arena), Request::Finished(Outcome::Executed)));
}

#[test]
fn resolver_notes_the_nearest_binding() {
    let mut arena = AstArena::new();
    let mut machine = Interpreter::new();
    let _ = load("var a = 1; { var b = 2; { print a; print b; print c; } }", &mut arena, &mut machine);
    let mut depths: Vec<usize> = machine.depths.table.values().copied().collect();
    depths.sort();
    assert_eq!(depths, vec![1, 2]);
}

#[test]
fn tree_walk_regression_40() {
    assert_eq!(
        prints(
            "fun caller(g) { g(); print g == nil; } \
             fun callCaller() { var capturedVar = \"before\"; var a = \"a\"; \
               fun f() { capturedVar = \"after\"; } \
               caller(f); } \
             callCaller();"
        ),
        vec!["false"]
    );
}

#[test]
fn assignment_finds_the_binding_that_was_visible_at_the_declaration() {
    assert_eq!(
        prints(
            "var a = \"global\"; { fun assign() { a = \"assigned\"; } var a = \"inner\"; \
             assign(); print a; } print a;"
        ),
        vec!["inner", "assigned"]
    );
}

#[test]
fn closure_over_a_parameter() {
    assert_eq!(
        prints("var f; fun foo(param) { fun f_() { print param; } f = f_; } foo(\"param\"); f();"),
        vec!["param"]
    );
}

#[test]
fn closure_over_a_variable_that_is_declared_later() {
    assert_eq!(
        prints(
            "fun f() { var a = \"a\"; var b = \"b\"; fun g() { print b; print a; } g(); } f();"
        ),
        vec!["b", "a"]
    );
}

#[test]
fn nested_closures() {
    assert_eq!(
        prints(
            "var f; fun f1() { var a = \"a\"; fun f2() { var b = \"b\"; fun f3() { var c = \"c\"; \
             fun f4() { print a; print b; print c; } f = f4; } f3(); } f2(); } f1(); f();"
        ),
        vec!["a", "b", "c"]
    );
}

#[test]
fn closures_share_a_variable() {
    assert_eq!(
        prints(
            "var get; var set; fun make() { var a = \"initial\"; fun g() { print a; } \
             fun s() { a = \"updated\"; } get = g; set = s; } make(); get(); set(); get();"
        ),
        vec!["initial", "updated"]
    );
}

#[test]
fn a_closure_in_a_loop_body_sees_that_round() {
    assert_eq!(
        prints(
            "var f1; var f2; var i = 1; while (i < 3) { var j = i; fun f() { print j; } \
             if (i == 1) f1 = f; else f2 = f; i = i + 1; } f1(); f2();"
        ),
        vec!["1", "2"]
    );
}

#[test]
fn for_loop_scopes() {
    assert_eq!(prints("for (var c = 0; c < 3;) print c = c + 1;"), vec!["1", "2", "3"]);
    assert_eq!(
        prints(
            "var i = \"before\"; for (var i = 0; i < 1; i = i + 1) { print i; var i = -1; print i; } \
             print i; for (; false;) {} print \"after\";"
        ),
        vec!["0", "-1", "before", "after"]
    );
    assert_eq!(
        prints("fun f() { for (;;) { var i = \"i\"; return i; } } print f();"),
        vec!["i"]
    );
}

#[test]
fn shadowing_in_blocks() {
    assert_eq!(
        prints(
            "var a = \"outer\"; { var a = \"inner\"; print a; } print a; \
             { var a = a; print a; } { print a; var a = \"shadow\"; print a; }"
        ),
        vec!["inner", "outer", "outer", "outer", "shadow"]
    );
}

#[test]
fn functions_are_values() {
    assert_eq!(
        prints(
            "fun add(a, b) { return a + b; } fun apply(f, x, y) { return f(x, y); } \
             print apply(add, 1, 2); fun ret() { return add; } print ret()(3, 4); \
             fun mutual_a(n) { if (n == 0) return \"a\"; return mutual_b(n - 1); } \
             fun mutual_b(n) { if (n == 0) return \"b\"; return mutual_a(n - 1); } \
             print mutual_a(3); print mutual_a(4);"
        ),
        vec!["3", "7", "b", "a"]
    );
}

#[test]
fn local_functions_can_call_themselves() {
    assert_eq!(
        prints("{ fun count(n) { if (n > 1) count(n - 1); print n; } count(3); }"),
        vec!["1", "2", "3"]
    );
}

#[test]
fn numbers_are_written_like_doubles() {
    assert_eq!(
        prints("print 123; print 987654; print 0; print -0; print 123.456; print -0.001; print 1 / 3; print 100000000000000000000; print 2.50;"),
        vec![
            "123",
            "987654",
            "0",
            "-0",
            "123.456",
            "-0.001",
            "0.3333333333333333",
            "100000000000000000000",
            "2.5"
        ]
    );
}

#[test]
fn strings_hold_any_characters_but_quotes() {
    assert_eq!(prints("print \"a\nb\\n\"; print \"ß€😀\" + \"!\";"), vec!["a\nb\\n", "ß€😀!"]);
}

#[test]
fn unused_for_loop_test_ends_in_an_error() {
    let (out, result) = run("var i = 0; for (;;) { i = i + 1; if (i == 3) stop(); }");
    assert!(out.is_empty());
    assert_eq!(result.unwrap_err(), "Undefined variable.");
}

#[test]
fn advance_stops_at_requests_and_at_its_limit() {
    let mut arena = AstArena::new();
    let mut machine = Interpreter::new();
    let program = load("var i = 0; while (i < 2) i = i + 1; print i;", &mut arena, &mut machine);
    machine.start(program);
    assert!(matches!(machine.advance(&arena, 0), Request::Continue));
    assert!(matches!(machine.advance(&arena, 2), Request::Continue));
    let mut out = Vec::new();
    let mut asked = 0;
    loop {
        match machine.advance(&arena, 1000) {
            Request::Continue => panic!("a thousand steps are more than enough"),
            Request::Print(value) => out.push(show(&value)),
            Request::ParseNumber(digits) => {
                asked += 1;
                let value: f64 = digits.parse().unwrap();
                machine.supply(Number::new(value.to_bits()));
            }
            Request::Arith { op: ArithOp::Add, left, right } => {
                asked += 1;
                let value = f64::from_bits(left.bits) + f64::from_bits(right.bits);
                machine.supply(Number::new(value.to_bits()));
            }
            Request::Finished(Outcome::Executed) => break,
            other => panic!("unexpected request: {other:?}"),
        }
    }
    assert_eq!(out, vec!["2"]);
    assert_eq!(asked, 1 + 3 + 2 + 2);
}

#[test]
fn an_id_that_names_nothing_is_an_error() {
    let arena = AstArena::new();
    let mut machine = Interpreter::new();
    machine.start_expression(rlox::ast::ExprId { raw: 7 });
    let mut out = Vec::new();
    assert!(matches!(
        drive(&mut machine, &arena, &mut out),
        Outcome::Failed(e) if e.message == "Broken syntax tree."
    ));
    machine.start(vec![StmtId { raw: 1 << 32 }]);
    assert!(matches!(
        drive(&mut machine, &arena, &mut out),
        Outcome::Failed(e) if e.message == "Broken syntax tree."
    ));
}

#[test]
fn a_native_function_that_the_machine_does_not_know() {
    let mut arena = AstArena::new();
    let mut machine = Interpreter::new();
    machine.env.define_global(
        "other".to_string(),
        Object::NativeFunction(rlox::object::NativeFunction::new("other", 0)),
    );
    let program = load("other();", &mut arena, &mut machine);
    machine.start(program);
    let mut out = Vec::new();
    assert!(matches!(
        drive(&mut machine, &arena, &mut out),
        Outcome::Failed(e) if e.message == "Unknown native function."
    ));
}

#[test]
fn runtime_errors_carry_their_spans() {
    let src = "var a = 1;\nprint a +\n  nope;";
    let mut arena = AstArena::new();
    let mut machine = Interpreter::new();
    let program = load(src, &mut arena, &mut machine);
    machine.start(program);
    let mut out = Vec::new();
    match drive(&mut machine, &arena, &mut out) {
        Outcome::Failed(e) => {
            assert_eq!((e.span.start, e.span.end, e.span.line_start), (23, 27, 3));
            assert_eq!(e.span.slice(src), "nope");
        }
        other => panic!("no error: {other:?}"),
    }
    let src = "fun f(a) {}\n(f)(1, 2);";
    let mut arena = AstArena::new();
    let mut machine = Interpreter::new();
    let program = load(src, &mut arena, &mut machine);
    machine.start(program);
    match drive(&mut machine, &arena, &mut out) {
        Outcome::Failed(e) => assert_eq!(e.span.slice(src), "f"),
        other => panic!("no error: {other:?}"),
    }
    let src = "1 + \"x\";";
    let mut arena = AstArena::new();
    let mut machine = Interpreter::new();
    let program = load(src, &mut arena, &mut machine);
    machine.start(program);
    match drive(&mut machine, &arena, &mut out) {
        Outcome::Failed(e) => assert_eq!(e.span.slice(src), "+"),
        other => panic!("no error: {other:?}"),
    }
}
