use rlox::ast::AstArena;
use rlox::ast::Expr;
use rlox::ast::ExprBinary;
use rlox::ast::ExprGrouping;
use rlox::ast::ExprLiteral;
use rlox::ast::ExprUnary;
use rlox::ast::Literal;
use rlox::ast::Stmt;
use rlox::parser::Parser;
use rlox::scanner::Scanner;
use rlox::span::Span;
use rlox::tokens::Token;
use rlox::tokens::TokenType;

fn tok(ty: TokenType) -> Token {
    Token { ty, span: Span { start: 0, end: 0, line_start: 1, line_end: 1 } }
}

fn polish(src: &str) -> String {
    let tokens = Scanner::new(src).unwrap().scan_tokens().unwrap();
    let mut arena = AstArena::new();
    let expr = Parser::new(tokens).expression(&mut arena).unwrap();
    let id = arena.alloc_expr(expr).unwrap();
    arena.expr_ref(id).polish_notation()
}

#[test]
fn expr_test_printer() {
    let mut arena = AstArena::new();
    let unary_left = arena
        .alloc_expr(Expr::Literal(ExprLiteral {
            token: tok(TokenType::Number("123".to_string())),
            literal: Literal::Nil,
        }))
        .unwrap();
    let left = arena
        .alloc_expr(Expr::Unary(ExprUnary { op: tok(TokenType::Minus), right: unary_left }))
        .unwrap();
    let literal_right = arena
        .alloc_expr(Expr::Literal(ExprLiteral {
            token: tok(TokenType::Number("45.67".to_string())),
            literal: Literal::Nil,
        }))
        .unwrap();
    let right = arena.alloc_expr(Expr::Grouping(ExprGrouping(literal_right))).unwrap();
    let expr = arena
        .alloc_expr(Expr::Binary(ExprBinary { op: tok(TokenType::Star), left, right }))
        .unwrap();
    assert_eq!("(* (- 123) (group 45.67))", arena.expr_ref(expr).polish_notation());
}

#[test]
fn parser_parse_grouping() {
    assert_eq!(polish("(42)"), "(group 42)")
}

#[test]
fn parser_parse_equality() {
    assert_eq!(polish("42 == 42 != 69 != 420"), "(!= (!= (== 42 42) 69) 420)")
}

#[test]
fn parser_parse_comparison() {
    assert_eq!(polish("42 < 69 <= 69 > 13 >= 420"), "(>= (> (<= (< 42 69) 69) 13) 420)");
}

#[test]
fn parser_parse_term() {
    assert_eq!(polish("42 - 69 + 420"), "(+ (- 42 69) 420)");
}

#[test]
fn parser_parse_factor() {
    assert_eq!(polish("42 / 69 * 420"), "(* (/ 42 69) 420)");
}

#[test]
fn parser_parse_unary() {
    assert_eq!(polish("!-42"), "(! (- 42))");
}

#[test]
fn parse_call() {
    assert_eq!(polish("-fn_name(2, \"wtv\")()"), "(- (call (call fn_name 2, \"wtv\")))");
}

#[test]
fn parser_test_precedence() {
    assert_eq!(
        polish("42 + -69 * 420 == (\"wtv\" > !false != nil)"),
        "(== (+ 42 (* (- 69) 420)) (group (!= (> \"wtv\" (! false)) nil)))"
    );
}

#[test]
fn logical_operators_are_their_own_nodes() {
    assert_eq!(polish("a or b and c"), "(or a (and b c))");
    let tokens = Scanner::new("a and b").unwrap().scan_tokens().unwrap();
    let mut arena = AstArena::new();
    let expr = Parser::new(tokens).expression(&mut arena).unwrap();
    assert!(matches!(expr, Expr::Logical(_)));
}

#[test]
fn assignment_is_right_associative() {
    assert_eq!(polish("a = b = 1"), "(= a(= b1))");
}

fn program(src: &str) -> (AstArena, Result<Vec<rlox::ast::StmtId>, Vec<rlox::error::ParsingError>>) {
    let tokens = Scanner::new(src).unwrap().scan_tokens().unwrap();
    let mut arena = AstArena::new();
    let r = Parser::new(tokens).parse(&mut arena);
    (arena, r)
}

#[test]
fn for_becomes_while() {
    let (arena, r) = program("for (var i = 0; i < 3; i = i + 1) print i;");
    let ids = r.unwrap();
    assert_eq!(ids.len(), 1);
    let Some(Stmt::Block(outer)) = arena.get_stmt(ids[0]) else { panic!("not a block") };
    assert_eq!(outer.statements.len(), 2);
    assert!(matches!(arena.get_stmt(outer.statements[0]), Some(Stmt::Var(_))));
    let Some(Stmt::While(w)) = arena.get_stmt(outer.statements[1]) else { panic!("not a loop") };
    assert_eq!(arena.expr_ref(w.condition).polish_notation(), "(< i 3)");
    let Some(Stmt::Block(body)) = arena.get_stmt(w.body) else { panic!("not a block") };
    assert_eq!(body.statements.len(), 2);
    assert!(matches!(arena.get_stmt(body.statements[0]), Some(Stmt::Print(_))));
    let Some(Stmt::Expression(step)) = arena.get_stmt(body.statements[1]) else {
        panic!("not an expression")
    };
    assert_eq!(arena.expr_ref(step.expr).polish_notation(), "(= i(+ i 1))");
}

#[test]
fn bare_for_loops_on_true() {
    let (arena, r) = program("for (;;) print 1;");
    let ids = r.unwrap();
    assert_eq!(ids.len(), 1);
    let Some(Stmt::Block(outer)) = arena.get_stmt(ids[0]) else { panic!("not a block") };
    assert_eq!(outer.statements.len(), 1);
    let Some(Stmt::While(w)) = arena.get_stmt(outer.statements[0]) else { panic!("not a loop") };
    let Some(Expr::Literal(l)) = arena.get_expr(w.condition) else { panic!("not a literal") };
    assert!(matches!(l.literal, Literal::Boolean(true)));
    assert_eq!(l.token.ty, TokenType::Eof);
    let Some(Stmt::Block(body)) = arena.get_stmt(w.body) else { panic!("not a block") };
    assert_eq!(body.statements.len(), 1);
    assert!(matches!(arena.get_stmt(body.statements[0]), Some(Stmt::Print(_))));
}

#[test]
fn for_with_a_condition_alone_keeps_both_blocks() {
    let (arena, r) = program("for (; x < 2;) print x;");
    let ids = r.unwrap();
    let Some(Stmt::Block(outer)) = arena.get_stmt(ids[0]) else { panic!("not a block") };
    assert_eq!(outer.statements.len(), 1);
    let Some(Stmt::While(w)) = arena.get_stmt(outer.statements[0]) else { panic!("not a loop") };
    assert_eq!(arena.expr_ref(w.condition).polish_notation(), "(< x 2)");
    let Some(Stmt::Block(body)) = arena.get_stmt(w.body) else { panic!("not a block") };
    assert_eq!(body.statements.len(), 1);
    assert!(matches!(arena.get_stmt(body.statements[0]), Some(Stmt::Print(_))));
}

#[test]
fn for_with_an_increment_alone_appends_it_to_the_body() {
    let (arena, r) = program("for (;; i = i + 1) print i;");
    let ids = r.unwrap();
    let Some(Stmt::Block(outer)) = arena.get_stmt(ids[0]) else { panic!("not a block") };
    assert_eq!(outer.statements.len(), 1);
    let Some(Stmt::While(w)) = arena.get_stmt(outer.statements[0]) else { panic!("not a loop") };
    assert!(matches!(arena.get_expr(w.condition), Some(Expr::Literal(_))));
    let Some(Stmt::Block(body)) = arena.get_stmt(w.body) else { panic!("not a block") };
    assert_eq!(body.statements.len(), 2);
    assert!(matches!(arena.get_stmt(body.statements[1]), Some(Stmt::Expression(_))));
}

#[test]
fn errors_are_collected_and_parsing_goes_on() {
    let (_, r) = program("var = 1; print 2 print 3; var x = ;");
    let errors = r.unwrap_err();
    let messages: Vec<&str> = errors.iter().map(|e| e.message.as_str()).collect();
    assert_eq!(
        messages,
        vec![
            "Expected 'identifier', found '='",
            "Expected ';', found 'print'",
            "Expected 'expression', found ';'",
        ]
    );
    assert!(errors.iter().all(|e| e.should_sync));
}

#[test]
fn invalid_assignment_target_does_not_synchronize() {
    let (_, r) = program("1 = 2; print 3;");
    let errors = r.unwrap_err();
    assert_eq!(errors[0].message, "Invalid assignment target.");
    assert!(!errors[0].should_sync);
}

#[test]
fn end_of_file_is_reported_at_the_closing_token() {
    let (_, r) = program("print 1");
    let errors = r.unwrap_err();
    assert_eq!(errors.len(), 1);
    assert_eq!(errors[0].message, "Expected ';', found 'end of file'");
    assert_eq!(errors[0].span.start, 7);
}

#[test]
fn too_many_arguments() {
    let mut src = String::from("f(");
    for i in 0..256 {
        if i > 0 {
            src.push_str(", ");
        }
        src.push_str("1");
    }
    src.push_str(");");
    let (_, r) = program(&src);
    let errors = r.unwrap_err();
    assert_eq!(errors[0].message, "Can't have more than 255 arguments.");
    assert!(!errors[0].should_sync);
    let mut ok = String::from("f(");
    for i in 0..255 {
        if i > 0 {
            ok.push_str(", ");
        }
        ok.push_str("1");
    }
    ok.push_str(");");
    assert!(program(&ok).1.is_ok());
}

#[test]
fn every_id_of_a_parse_is_in_the_arena() {
    let (arena, r) = program("fun f(a, b) { if (a) { return b; } else { while (b) f(a, b); } } f(1, 2);");
    let ids = r.unwrap();
    fn walk_expr(arena: &AstArena, id: rlox::ast::ExprId, seen: &mut usize) {
        *seen += 1;
        match arena.get_expr(id).expect("expression id is valid") {
            Expr::Binary(e) => {
                walk_expr(arena, e.left, seen);
                walk_expr(arena, e.right, seen);
            }
            Expr::Logical(e) => {
                walk_expr(arena, e.left, seen);
                walk_expr(arena, e.right, seen);
            }
            Expr::Call(e) => {
                walk_expr(arena, e.callee, seen);
                for a in &e.args {
                    walk_expr(arena, *a, seen);
                }
            }
            Expr::Grouping(e) => walk_expr(arena, e.0, seen),
            Expr::Unary(e) => walk_expr(arena, e.right, seen),
            Expr::Assign(e) => walk_expr(arena, e.value, seen),
            Expr::Literal(_) | Expr::Variable(_) => {}
        }
    }
    fn walk_stmt(arena: &AstArena, id: rlox::ast::StmtId, seen: &mut usize) {
        *seen += 1;
        match arena.get_stmt(id).expect("statement id is valid") {
            Stmt::Print(s) => walk_expr(arena, s.expr, seen),
            Stmt::Expression(s) => walk_expr(arena, s.expr, seen),
            Stmt::Var(s) => {
                if let Some(e) = s.initializer {
                    walk_expr(arena, e, seen)
                }
            }
            Stmt::Block(s) => {
                for c in &s.statements {
                    walk_stmt(arena, *c, seen)
                }
            }
            Stmt::If(s) => {
                walk_expr(arena, s.condition, seen);
                walk_stmt(arena, s.then_branch, seen);
                if let Some(e) = s.else_branch {
                    walk_stmt(arena, e, seen)
                }
            }
            Stmt::Return(s) => {
                if let Some(e) = s.expr {
                    walk_expr(arena, e, seen)
                }
            }
            Stmt::While(s) => {
                walk_expr(arena, s.condition, seen);
                walk_stmt(arena, s.body, seen);
            }
            Stmt::Function(s) => {
                for c in &s.body {
                    walk_stmt(arena, *c, seen)
                }
            }
        }
    }
    let mut seen = 0;
    for id in ids {
        walk_stmt(&arena, id, &mut seen);
    }
    assert_eq!(seen, arena.len());
}

fn written(src: &str) -> String {
    let tokens = Scanner::new(src).unwrap().scan_tokens().unwrap();
    let mut arena = AstArena::new();
    let expr = Parser::new(tokens).expression(&mut arena).unwrap();
    let id = arena.alloc_expr(expr).unwrap();
    arena.expr_ref(id).to_string()
}

#[test]
fn expressions_are_written_as_in_source() {
    assert_eq!(written("1+2*3"), "1 + 2 * 3");
    assert_eq!(written("( 1+2 )*3"), "(1 + 2) * 3");
    assert_eq!(written("!-x"), "!-x");
    assert_eq!(written("a=b or c and d"), "a = b or c and d");
    assert_eq!(written("f ( 1 ,\"s\" ) ( )"), "f(1, \"s\")()");
    assert_eq!(written("f(x)"), "f(x)");
    assert_eq!(written("nil == true"), "nil == true");
}

#[test]
fn expression_spans_cover_their_parts() {
    let src = "  f(1,\n 2) + -x";
    let tokens = Scanner::new(src).unwrap().scan_tokens().unwrap();
    let mut arena = AstArena::new();
    let expr = Parser::new(tokens).expression(&mut arena).unwrap();
    let id = arena.alloc_expr(expr).unwrap();
    let span = arena.expr_ref(id).span();
    assert_eq!((span.start, span.end, span.line_start, span.line_end), (2, 15, 1, 2));
    let Some(Expr::Binary(b)) = arena.get_expr(id) else { panic!("not binary") };
    let left = arena.expr_span(b.left);
    assert_eq!((left.start, left.end, left.line_start, left.line_end), (2, 10, 1, 2));
    let right = arena.expr_span(b.right);
    assert_eq!((right.start, right.end), (13, 15));
    assert_eq!(span.slice(src), "f(1,\n 2) + -x");
}

#[test]
fn too_many_parameters() {
    let mut src = String::from("fun f(");
    for i in 0..256 {
        if i > 0 {
            src.push_str(", ");
        }
        src.push_str(&format!("p{i}"));
    }
    src.push_str(") {}");
    let (_, r) = program(&src);
    let errors = r.unwrap_err();
    assert_eq!(errors[0].message, "Can't have more than 255 parameters.");
    assert!(!errors[0].should_sync);
    let (_, r) = program("fun f(a, 1) {}");
    assert_eq!(r.unwrap_err()[0].message, "Expected 'parameter name', found '1'");
    let (_, r) = program("fun (a) {}");
    assert_eq!(r.unwrap_err()[0].message, "Expected 'function name', found '('");
}

#[test]
fn recovery_stops_before_a_declaration() {
    let (_, r) = program("print ) 1 2 var x = 1; print (; fun f() {} if");
    let errors = r.unwrap_err();
    let messages: Vec<&str> = errors.iter().map(|e| e.message.as_str()).collect();
    assert_eq!(
        messages,
        vec![
            "Expected 'expression', found ')'",
            "Expected 'expression', found ';'",
            "Expected '(', found 'end of file'",
        ]
    );
}

#[test]
fn default_arena_has_no_nodes() {
    let arena = AstArena::default();
    assert_eq!(arena.len(), 0);
}
