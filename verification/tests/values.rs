use rlox::ast::StmtId;
use rlox::chain::Chain;
use rlox::chain::SharedNode;
use rlox::environment::EnvError;
use rlox::environment::Environment;
use rlox::environment::ScopedEnvironment;
use rlox::error::display_error_list;
use rlox::error::Error;
use rlox::error::LexingError;
use rlox::error::ParsingError;
use rlox::error::PassError;
use rlox::error::RuntimeError;
use rlox::object::ArithOp;
use rlox::object::Arithmetic;
use rlox::object::Comparison;
use rlox::object::DowncastError;
use rlox::object::Function;
use rlox::object::NativeFunction;
use rlox::object::Nil;
use rlox::object::Number;
use rlox::object::Object;
use rlox::object::OpError;
use rlox::reporter::Reporter;
use rlox::span::Span;
use rlox::span::Spanned;
use rlox::text::char_width;
use rlox::text::chars_of;
use rlox::text::push_decimal;
use rlox::text::push_str;
use rlox::text::string_of;

fn num(x: f64) -> Object {
    Object::new(Number::new(x.to_bits()))
}

fn span(start: usize, end: usize, line_start: u32, line_end: u32) -> Span {
    Span { start, end, line_start, line_end }
}

#[test]
fn join_covers_both() {
    let a = span(4, 9, 2, 2);
    let b = span(1, 6, 1, 3);
    assert_eq!(a.join(&b), span(1, 9, 1, 3));
    assert_eq!(b.join(&a), span(1, 9, 1, 3));
    assert_eq!(a.join(&a), a);
    assert_eq!(Span::default(), span(0, 0, 1, 1));
    assert_eq!(a.span(), a);
}

#[test]
fn slices_are_whole_characters() {
    let src = "aé\"ß\" z";
    assert_eq!(span(0, 1, 1, 1).slice(src), "a");
    assert_eq!(span(1, 3, 1, 1).slice(src), "é");
    assert_eq!(span(3, 7, 1, 1).slice(src), "\"ß\"");
    assert_eq!(span(8, 9, 1, 1).slice(src), "z");
    assert_eq!(span(9, 9, 1, 1).slice(src), "");
    assert_eq!(span(0, 9, 1, 1).slice(src), src);
    assert_eq!(span(2, 3, 1, 1).try_slice(src), None);
    assert_eq!(span(1, 2, 1, 1).try_slice(src), None);
    assert_eq!(span(3, 1, 1, 1).try_slice(src), None);
    assert_eq!(span(0, 10, 1, 1).try_slice(src), None);
    assert_eq!(span(0, 0, 1, 1).try_slice(""), Some(String::new()));
}

#[test]
fn text_helpers() {
    assert_eq!(chars_of("aé").len(), 2);
    assert_eq!(char_width('a'), 1);
    assert_eq!(char_width('é'), 2);
    assert_eq!(char_width('€'), 3);
    assert_eq!(char_width('😀'), 4);
    for c in ['a', 'é', '€', '😀', '\u{7f}', '\u{80}', '\u{7ff}', '\u{800}', '\u{ffff}', '\u{10000}'] {
        assert_eq!(char_width(c), c.len_utf8());
    }
    let mut s = String::from("n=");
    push_decimal(&mut s, 0);
    push_str(&mut s, ",");
    push_decimal(&mut s, 1234567890);
    push_str(&mut s, ",");
    push_decimal(&mut s, u64::MAX);
    assert_eq!(s, format!("n=0,1234567890,{}", u64::MAX));
    assert_eq!(string_of(&vec!['a', 'b', 'c', 'd'], 1, 3), "bc");
}

#[test]
fn errors_render_with_their_position() {
    let e = LexingError::new(span(8, 9, 3, 3), "Unexpected character.".to_string());
    assert_eq!(e.to_string(), "[line 3:8] Unexpected character.");
    let p = ParsingError::expected(span(2, 3, 1, 1), ";", "print");
    assert_eq!(p.message, "Expected ';', found 'print'");
    assert!(p.should_sync);
    assert_eq!(p.to_string(), "[line 1:2] Expected ';', found 'print'");
    assert!(ParsingError::custom(span(0, 0, 1, 1), "x").should_sync);
    assert!(!ParsingError::custom_no_sync(span(0, 0, 1, 1), "x").should_sync);
    assert_eq!(RuntimeError::custom(span(0, 0, 1, 1), "m").message, "m");
    assert_eq!(RuntimeError::with_token(span(0, 0, 1, 1), "m").message, "m");
    assert_eq!(RuntimeError::undefined(span(5, 6, 2, 2)).to_string(), "[line 2:5] Undefined variable.");
    assert_eq!(RuntimeError::not_callable(span(0, 0, 1, 1)).message, "Object is not a callable.");
    assert_eq!(
        RuntimeError::arity(span(0, 0, 1, 1), 2, 300).message,
        "Expected 2 arguments but found 300"
    );
    assert_eq!(
        RuntimeError::invalid_break_or_continue(span(0, 0, 1, 1)).message,
        "Invalid control flow statement outside for/while loop."
    );
    assert_eq!(RuntimeError::invalid_return(span(0, 0, 1, 1)).message, "Invalid return statement.");
    assert_eq!(PassError::custom(span(1, 2, 4, 4), "p").to_string(), "[line 4:1] p");
}

#[test]
fn exit_codes() {
    let lex = || LexingError::new(span(0, 1, 1, 1), "a".to_string());
    assert_eq!(Error::Lexing(vec![lex()]).exit_code(), 65);
    assert_eq!(Error::Parsing(vec![]).exit_code(), 65);
    assert_eq!(Error::Pass(PassError::custom(span(0, 0, 1, 1), "p")).exit_code(), 65);
    assert_eq!(Error::Runtime(RuntimeError::undefined(span(0, 0, 1, 1))).exit_code(), 70);
    assert_eq!(Error::Other("x".to_string()).exit_code(), 1);
    assert_eq!(rlox::error::EXIT_USAGE, 64);
    assert_eq!(rlox::error::EXIT_OK, 0);
}

#[test]
fn batches_render_as_lists() {
    let a = LexingError::new(span(0, 1, 1, 1), "a".to_string());
    let b = LexingError::new(span(4, 5, 2, 2), "b".to_string());
    assert_eq!(Error::Lexing(vec![a, b]).to_string(), "2 errors:\n[line 1:0] a\n[line 2:4] b");
    assert_eq!(Error::Parsing(vec![]).to_string(), "0 errors:\n");
    assert_eq!(
        Error::from_parsing(ParsingError::custom(span(1, 2, 1, 1), "p")).to_string(),
        "1 errors:\n[line 1:1] p"
    );
    assert!(matches!(Error::from_lexing(LexingError::new(span(0, 0, 1, 1), "l".to_string())), Error::Lexing(v) if v.len() == 1));
    assert_eq!(Error::Other("plain".to_string()).to_string(), "plain");
    assert_eq!(display_error_list(&vec!["x".to_string(), "y".to_string(), "z".to_string()]), "x\ny\nz");
    assert_eq!(display_error_list(&vec![]), "");
}

#[test]
fn reports_show_the_source() {
    let src = "var a = @;\nprint ß;";
    let reporter = Reporter::new(src);
    let e = LexingError::new(span(8, 9, 1, 1), "Unexpected character.".to_string());
    assert_eq!(reporter.report(&e), "[line 1] Error '@': Unexpected character.");
    let r = RuntimeError::undefined(span(17, 19, 2, 2));
    assert_eq!(reporter.report(&r), "[line 2] Error 'ß': Undefined variable.");
    let off = RuntimeError::undefined(span(18, 19, 2, 2));
    assert_eq!(reporter.report(&off), "[line 2] Error '': Undefined variable.");
}

#[test]
fn truthiness() {
    assert!(!Object::nil().is_truthy());
    assert!(!Object::new(false).is_truthy());
    assert!(Object::new(true).is_truthy());
    assert!(num(0.0).is_truthy());
    assert!(Object::new(String::new()).is_truthy());
    assert!(Object::new(NativeFunction::new("clock", 0)).is_truthy());
    assert!(Object::nil().is_nil());
    assert!(!num(0.0).is_nil());
}

#[test]
fn downcasts() {
    let s = Object::new("text".to_string());
    assert_eq!(s.downcast::<String>(), "text");
    assert_eq!(*Object::new(true).downcast::<bool>(), true);
    assert_eq!(num(1.5).downcast::<Number>().bits, 1.5f64.to_bits());
    assert_eq!(s.try_downcast::<bool>().unwrap_err(), DowncastError::new(false));
    assert!(Object::nil().try_downcast::<String>().unwrap_err().is_nil());
    assert!(!s.try_downcast::<Number>().unwrap_err().is_nil());
    assert_eq!(DowncastError::new(true).to_string("Number"), "Object is nil");
    assert_eq!(DowncastError::new(false).to_string("Number"), "Object is not of type Number");
    let f = Object::new(Function::new(StmtId { raw: 1 }, "f", 2, SharedNode { index: 0 }));
    assert_eq!(f.try_downcast::<Function>().unwrap().name(), "f");
    assert_eq!(f.as_callable(), Some(2));
    assert_eq!(Object::new(NativeFunction::new("clock", 0)).as_callable(), Some(0));
    assert_eq!(s.as_callable(), None);
}

#[test]
fn number_order_agrees_with_doubles() {
    let samples = [
        0.0,
        -0.0,
        1.0,
        -1.0,
        0.5,
        -0.5,
        1e300,
        -1e300,
        5e-324,
        -5e-324,
        f64::MAX,
        f64::MIN,
        f64::INFINITY,
        f64::NEG_INFINITY,
        f64::NAN,
        -f64::NAN,
        2.0,
        3.0,
        1234567.875,
    ];
    for &a in &samples {
        for &b in &samples {
            let (x, y) = (Number::new(a.to_bits()), Number::new(b.to_bits()));
            assert_eq!(x.equals(&y), a == b, "{a} == {b}");
            assert_eq!(x.less_than(&y), a < b, "{a} < {b}");
            let (p, q) = (num(a), num(b));
            assert_eq!(p.equals(&q), a == b);
            assert_eq!(p.compare(Comparison::Less, &q), a < b);
            assert_eq!(p.compare(Comparison::LessEqual, &q), a <= b);
            assert_eq!(p.compare(Comparison::Greater, &q), a > b);
            assert_eq!(p.compare(Comparison::GreaterEqual, &q), a >= b);
        }
        let n = Number::new(a.to_bits());
        assert_eq!(n.is_nan(), a.is_nan());
        assert_eq!(n.negated().bits, (-a).to_bits());
    }
}

#[test]
fn equality_by_sort() {
    let f = |name: &str, arity| Object::new(Function::new(StmtId { raw: 1 }, name, arity, SharedNode { index: 0 }));
    assert!(Object::nil().equals(&Object::nil()));
    assert!(!Object::nil().equals(&Object::new(false)));
    assert!(Object::new("a".to_string()).equals(&Object::new("a".to_string())));
    assert!(!Object::new("1".to_string()).equals(&num(1.0)));
    assert!(f("f", 0).equals(&f("f", 3)));
    assert!(!f("f", 0).equals(&f("g", 0)));
    assert!(!f("clock", 0).equals(&Object::new(NativeFunction::new("clock", 0))));
    assert!(!Object::new("a".to_string()).compare(Comparison::Less, &Object::new("b".to_string())));
}

#[test]
fn arithmetic_on_values() {
    assert!(matches!(
        num(1.0).arithmetic(ArithOp::Mul, &num(2.0)),
        Ok(Arithmetic::Ask { op: ArithOp::Mul, left, right })
            if left.bits == 1.0f64.to_bits() && right.bits == 2.0f64.to_bits()
    ));
    assert!(matches!(
        Object::new("a".to_string()).arithmetic(ArithOp::Add, &Object::new("b".to_string())),
        Ok(Arithmetic::Done(Object::String(s))) if s == "ab"
    ));
    let message = |r: Result<Arithmetic, OpError>| match r {
        Err(e) => e.to_string(),
        Ok(_) => panic!("no error"),
    };
    assert_eq!(
        message(Object::new("a".to_string()).arithmetic(ArithOp::Sub, &Object::new("b".to_string()))),
        "Invalid operand: Object is not of type Number"
    );
    assert_eq!(
        message(num(1.0).arithmetic(ArithOp::Add, &Object::nil())),
        "Invalid operand: Objects not both String or Number"
    );
    assert_eq!(message(num(1.0).arithmetic(ArithOp::Div, &Object::nil())), "Invalid operand: Object is nil");
    assert_eq!(message(Object::nil().arithmetic(ArithOp::Div, &num(1.0))), "Invalid operand: Object is nil");
    assert_eq!(
        message(num(1.0).arithmetic(ArithOp::Div, &Object::new(true))),
        "Invalid operand: Object is not of type Number"
    );
    assert!(matches!(num(2.0).neg(), Ok(Object::Number(n)) if f64::from_bits(n.bits) == -2.0));
    assert!(num(2.0).not().equals(&Object::new(false)));
    assert!(Object::nil().not().equals(&Object::new(true)));
}

#[test]
fn values_are_written() {
    assert_eq!(Object::nil().text().unwrap(), "nil");
    assert_eq!(Object::new(true).text().unwrap(), "true");
    assert_eq!(Object::new(false).text().unwrap(), "false");
    assert_eq!(Object::new("s".to_string()).text().unwrap(), "s");
    assert_eq!(Object::new(NativeFunction::new("clock", 0)).text().unwrap(), "<native fn clock>");
    assert_eq!(
        Object::new(Function::new(StmtId { raw: 1 }, "f", 0, SharedNode { index: 0 })).text().unwrap(),
        "<fn f>"
    );
    assert_eq!(num(1.0).text(), None);
}

#[test]
fn chains_share_their_tails() {
    let mut chain: Chain<u32> = Chain::new();
    assert!(chain.head().is_none());
    assert!(chain.pop().is_none());
    chain.push(10);
    chain.push(20);
    let twenty = chain.head_node().unwrap();
    chain.push(30);
    assert_eq!(chain.head(), Some(&30));
    assert_eq!(chain.pop(), Some(SharedNode { index: 2 }));
    assert_eq!(chain.head(), Some(&20));
    chain.push(40);
    assert_eq!(chain.nodes[3].parent, Some(twenty));
    assert_eq!(*twenty.value(&chain), 20);
    *chain.value_mut(twenty) = 21;
    let mut walk = chain.iter();
    let mut seen = Vec::new();
    while let Some(node) = walk.next(&chain) {
        seen.push(*chain.value(node));
    }
    assert_eq!(seen, vec![40, 21, 10]);
    assert_eq!(*chain.value(SharedNode::new(2)), 30);
}

#[test]
fn scopes_bind_names_once() {
    let mut scope = ScopedEnvironment::new();
    assert!(scope.get("a").is_none());
    scope.define("a".to_string(), num(1.0));
    scope.define("b".to_string(), num(2.0));
    scope.define("a".to_string(), num(3.0));
    assert_eq!(scope.values.len(), 2);
    assert!(scope.get("a").unwrap().equals(&num(3.0)));
    assert!(scope.assign("b", num(4.0)).unwrap().equals(&num(4.0)));
    assert!(scope.get("b").unwrap().equals(&num(4.0)));
    assert!(scope.assign("c", num(5.0)).is_none());
    assert!(scope.get("c").is_none());
}

#[test]
fn environment_walks_outwards() {
    let mut env = Environment::new();
    env.define("a".to_string(), num(1.0));
    env.push_scope();
    env.define("b".to_string(), num(2.0));
    env.push_scope();
    env.define("a".to_string(), num(3.0));
    env.define_global("g".to_string(), num(9.0));
    assert!(env.get("a").unwrap().equals(&num(3.0)));
    assert!(env.get("b").unwrap().equals(&num(2.0)));
    assert!(env.get("g").unwrap().equals(&num(9.0)));
    assert!(env.get("missing").is_none());
    assert!(env.get_at(0, "a").unwrap().equals(&num(3.0)));
    assert!(env.get_at(2, "a").unwrap().equals(&num(1.0)));
    assert!(env.get_at(1, "a").is_none());
    assert!(env.get_at(1, "b").unwrap().equals(&num(2.0)));
    assert!(env.get_at(3, "a").is_none());
    assert!(env.assign("b", num(5.0)).unwrap().equals(&num(5.0)));
    assert!(env.get_at(1, "b").unwrap().equals(&num(5.0)));
    assert!(env.assign_at(2, "a", num(6.0)).is_ok());
    assert!(env.get("a").unwrap().equals(&num(3.0)));
    assert!(matches!(env.assign_at(1, "a", num(7.0)), Err(EnvError::UndefinedVar(n)) if n == "a"));
    assert!(matches!(env.assign("zz", num(7.0)), Err(EnvError::UndefinedVar(n)) if n == "zz"));
    assert_eq!(EnvError::UndefinedVar("zz".to_string()).to_string(), "Undefined variable 'zz'.");
    env.pop_scope();
    assert!(env.get("a").unwrap().equals(&num(6.0)));
    env.pop_scope();
    env.pop_scope();
    env.pop_scope();
    assert_eq!(env.current_scope(), env.global_scope());
    assert!(env.get("b").is_none());
    assert!(env.get("a").unwrap().equals(&num(6.0)));
}

#[test]
fn a_scope_that_was_left_can_be_entered_again() {
    let mut env = Environment::new();
    env.push_scope();
    env.define("x".to_string(), num(1.0));
    let captured = env.current_scope();
    env.pop_scope();
    assert!(env.get("x").is_none());
    let left = env.enter(captured);
    assert_eq!(left, env.global_scope());
    assert!(env.assign("x", num(2.0)).is_ok());
    env.enter(left);
    assert!(env.get("x").is_none());
    env.enter(captured);
    assert!(env.get("x").unwrap().equals(&num(2.0)));
    let before = env.current_scope();
    env.enter(SharedNode { index: 99 });
    assert_eq!(env.current_scope(), before);
}

#[test]
fn a_global_is_found_from_every_scope_unless_shadowed() {
    let mut env = Environment::new();
    env.push_scope();
    env.define("shadow".to_string(), num(1.0));
    env.push_scope();
    env.define_global("g".to_string(), num(2.0));
    env.define_global("shadow".to_string(), num(3.0));
    assert!(env.get("g").unwrap().equals(&num(2.0)));
    assert!(env.get("shadow").unwrap().equals(&num(1.0)));
    env.pop_scope();
    env.pop_scope();
    assert!(env.get("g").unwrap().equals(&num(2.0)));
    assert!(env.get("shadow").unwrap().equals(&num(3.0)));
}
