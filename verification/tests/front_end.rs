use corvo7::compiler::lexer::{lex_lines, vec_literals_fit, LexerErrorKind, Token, TokenKind};
use corvo7::compiler::parser::{BinOp, Expr, Mutability, Parser, ParserErrorKind, Stmt, Type};

fn lines_of(src: &str) -> Vec<String> {
    src.lines().map(|l| l.to_string()).collect()
}

fn lex(src: &str) -> Vec<Token> {
    let lines = lines_of(src);
    assert!(vec_literals_fit(&lines));
    match lex_lines(&lines) {
        Ok(tokens) => tokens,
        Err(errs) => panic!("unexpected lexer errors: {:?}", errs),
    }
}

#[test]
fn lexes_a_declaration() {
    let tokens = lex("var int x = 5;");
    assert_eq!(tokens.len(), 7);
    assert!(matches!(tokens[0].kind, TokenKind::Var));
    assert!(matches!(tokens[1].kind, TokenKind::Int));
    assert!(matches!(&tokens[2].kind, TokenKind::Ident(n) if n == "x"));
    assert!(matches!(tokens[3].kind, TokenKind::Equal));
    assert!(matches!(tokens[4].kind, TokenKind::IntLiteral(5)));
    assert!(matches!(tokens[5].kind, TokenKind::Semicolon));
    assert!(matches!(tokens[6].kind, TokenKind::EOF));
    assert_eq!(tokens[0].span.line, 1);
    assert_eq!(tokens[0].span.column, 1);
    assert_eq!(tokens[2].span.column, 9);
    assert_eq!(tokens[6].span.line, 1);
    assert_eq!(tokens[6].span.column, 1);
}

#[test]
fn end_of_input_is_on_the_last_line() {
    let tokens = lex("print(1);\n\nprint(2);");
    let last = tokens.last().unwrap();
    assert!(matches!(last.kind, TokenKind::EOF));
    assert_eq!(last.span.line, 3);
    assert_eq!(tokens[5].span.line, 3);
}

#[test]
fn empty_input_is_only_end_of_input() {
    let tokens = lex("");
    assert_eq!(tokens.len(), 1);
    assert!(matches!(tokens[0].kind, TokenKind::EOF));
    assert_eq!(tokens[0].span.line, 0);
}

#[test]
fn unsigned_and_negative_literals() {
    let tokens = lex("7u -3");
    assert!(matches!(tokens[0].kind, TokenKind::UIntLiteral(7)));
    assert!(matches!(tokens[1].kind, TokenKind::NegIntLiteral(-3)));
}

#[test]
fn operators_take_the_longest_match() {
    let tokens = lex("+= == => :=: -> ..");
    assert!(matches!(tokens[0].kind, TokenKind::CompoundAdd));
    assert!(matches!(tokens[1].kind, TokenKind::DoubleEqual));
    assert!(matches!(tokens[2].kind, TokenKind::FatArrow));
    assert!(matches!(tokens[3].kind, TokenKind::Indentity));
    assert!(matches!(tokens[4].kind, TokenKind::Arrow));
    assert!(matches!(tokens[5].kind, TokenKind::Range));
}

#[test]
fn vector_literal_collects_numbers() {
    let tokens = lex("[1, 2, 30]");
    match &tokens[0].kind {
        TokenKind::VecLiteral(v) => assert_eq!(v, &vec![1i128, 2, 30]),
        other => panic!("unexpected token {:?}", other),
    }
}

#[test]
fn lexer_errors_are_all_reported() {
    let lines = lines_of("var x = $;\nprint(\"open");
    assert!(vec_literals_fit(&lines));
    match lex_lines(&lines) {
        Ok(_) => panic!("expected errors"),
        Err(errs) => {
            assert_eq!(errs.0.len(), 2);
            assert_eq!(errs.0[0].kind, LexerErrorKind::InvalidChar('$'));
            assert_eq!(errs.0[0].span.line, 1);
            assert_eq!(errs.0[0].span.column, 9);
            assert_eq!(errs.0[1].kind, LexerErrorKind::UnterminatedString);
            assert_eq!(errs.0[1].span.line, 2);
        }
    }
}

#[test]
fn unsigned_suffix_on_negative_is_an_error() {
    let lines = lines_of("-5u");
    match lex_lines(&lines) {
        Ok(_) => panic!("expected an error"),
        Err(errs) => assert_eq!(errs.0[0].kind, LexerErrorKind::NegativeNumWithUSuffix),
    }
}

fn parse(src: &str) -> (Vec<Stmt>, Vec<corvo7::compiler::parser::ParserError>, bool) {
    let mut parser = Parser::new(lex(src));
    let result = parser.try_parse().expect("the parser gave up");
    (result.stmts, result.errors, result.success)
}

#[test]
fn parses_declarations_and_prints() {
    let (stmts, errors, success) = parse("const int a = 1 + 2 * 3;\nprint(a, 4);");
    assert!(success);
    assert!(errors.is_empty());
    assert_eq!(stmts.len(), 2);
    match &stmts[0] {
        Stmt::VarDecl(v) => {
            assert_eq!(v.name, "a");
            assert!(matches!(v.ty, Type::Int));
            assert_eq!(v.mutability, Mutability::Const);
            match &v.value {
                Expr::BinaryOp { left, op, right } => {
                    assert_eq!(*op, BinOp::Add);
                    assert!(matches!(**left, Expr::IntLiteral(1)));
                    assert!(matches!(&**right, Expr::BinaryOp { op: BinOp::Mul, .. }));
                }
                other => panic!("unexpected expression {:?}", other),
            }
        }
        other => panic!("unexpected statement {:?}", other),
    }
    match &stmts[1] {
        Stmt::Print(es) => assert_eq!(es.len(), 2),
        other => panic!("unexpected statement {:?}", other),
    }
}

#[test]
fn parses_control_flow() {
    let src = "fun int add(int a, int b) {\n  return a + b;\n}\nwhile (x < 3) { x += 1; }\nif (x == 1) { print(1); } else { print(2); }\nfor i in 0..10 { print(i); }\nloop { break; }";
    let (stmts, errors, success) = parse(src);
    assert!(success, "{:?}", errors);
    assert_eq!(stmts.len(), 5);
    match &stmts[0] {
        Stmt::FuncDecl(f) => {
            assert_eq!(f.name, "add");
            assert_eq!(f.params.len(), 2);
            assert!(matches!(f.return_type, Some(Type::Int)));
            assert!(matches!(f.body[0], Stmt::Return(_)));
        }
        other => panic!("unexpected statement {:?}", other),
    }
    assert!(matches!(&stmts[1], Stmt::WhileLoop(_)));
    match &stmts[2] {
        Stmt::IfStatement(i) => assert!(i.else_branch.is_some()),
        other => panic!("unexpected statement {:?}", other),
    }
    match &stmts[3] {
        Stmt::ForLoop(f) => {
            assert_eq!(f.var, "i");
            assert!(f.step.is_none());
        }
        other => panic!("unexpected statement {:?}", other),
    }
    assert!(matches!(&stmts[4], Stmt::Loop(_)));
}

#[test]
fn duplicate_declaration_is_a_parser_error() {
    let (stmts, errors, success) = parse("var int a = 1;\nvar int a = 2;");
    assert!(!success);
    assert_eq!(stmts.len(), 1);
    assert_eq!(errors.len(), 1);
    assert_eq!(errors[0].kind(), ParserErrorKind::DuplicateVariableError);
    assert_eq!(errors[0].line(), 2);
}

#[test]
fn missing_semicolon_is_reported_and_parsing_goes_on() {
    let (stmts, errors, success) = parse("var int a = 1\nprint(a);");
    assert!(!success);
    assert_eq!(errors.len(), 1);
    assert_eq!(errors[0].kind(), ParserErrorKind::ExpectedTokenNotFound);
    assert_eq!(errors[0].line(), 2);
    assert_eq!(errors[0].column(), 1);
    assert!(stmts.is_empty());
}

#[test]
fn a_statement_that_cannot_start_makes_the_parser_give_up() {
    let mut parser = Parser::new(lex("+;"));
    assert!(parser.try_parse().is_none());
    let mut parser = Parser::new(lex("print(;);"));
    assert!(parser.try_parse().is_none());
}

#[test]
fn lines_are_scanned_independently() {
    let both = lex("var x;\nprint(x);");
    let first = lex("var x;");
    let second = lex("print(x);");
    assert_eq!(both.len(), first.len() - 1 + second.len());
    for (i, t) in first[..first.len() - 1].iter().enumerate() {
        assert_eq!(format!("{:?}", both[i].kind), format!("{:?}", t.kind));
        assert_eq!(both[i].span, t.span);
    }
    let offset = first.len() - 1;
    for (i, t) in second[..second.len() - 1].iter().enumerate() {
        assert_eq!(format!("{:?}", both[offset + i].kind), format!("{:?}", t.kind));
        assert_eq!(both[offset + i].span.line, 2);
        assert_eq!(both[offset + i].span.column, t.span.column);
    }
}

#[test]
fn letter_after_unsigned_suffix_is_an_error() {
    let lines = lines_of("5ux");
    match lex_lines(&lines) {
        Ok(_) => panic!("expected an error"),
        Err(errs) => {
            assert_eq!(errs.0[0].kind, LexerErrorKind::InvalidNumericSuffix);
            assert_eq!(errs.0[0].span.column, 1);
        }
    }
}

#[test]
fn missing_identifier_is_reported() {
    let (_, errors, success) = parse("var int = 3;");
    assert!(!success);
    assert_eq!(errors[0].kind(), ParserErrorKind::ExpectedIdentifierNotFound);
    assert_eq!(errors[0].line(), 1);
    assert_eq!(errors[0].column(), 9);
}

#[test]
fn token_that_cannot_start_an_expression_is_reported() {
    let (stmts, errors, success) = parse("var int a = ;");
    assert!(!success);
    assert!(stmts.is_empty());
    assert_eq!(errors.len(), 1);
    assert_eq!(errors[0].kind(), ParserErrorKind::InvalidExpression);
    assert_eq!(errors[0].column(), 13);
}

fn declared(stmt: &Stmt) -> (&str, &Type, &Expr, Mutability) {
    match stmt {
        Stmt::VarDecl(v) => (v.name.as_str(), &v.ty, &v.value, v.mutability),
        other => panic!("unexpected statement {:?}", other),
    }
}

#[test]
fn declaration_type_may_be_left_out() {
    let (stmts, errors, success) =
        parse("var variable1 = 10;\nconst variable2 = 28;\nvar flag = true;\nvar wide = 300;\nvar small = 19u;\nvar neg = -5;");
    assert!(success, "{:?}", errors);
    assert_eq!(stmts.len(), 6);
    let (name, ty, value, m) = declared(&stmts[0]);
    assert_eq!(name, "variable1");
    assert!(matches!(ty, Type::I8));
    assert!(matches!(value, Expr::IntLiteral(10)));
    assert_eq!(m, Mutability::Mutable);
    let (name, ty, _, m) = declared(&stmts[1]);
    assert_eq!(name, "variable2");
    assert!(matches!(ty, Type::I8));
    assert_eq!(m, Mutability::Const);
    assert!(matches!(declared(&stmts[2]).1, Type::Bool));
    assert!(matches!(declared(&stmts[3]).1, Type::I16));
    assert!(matches!(declared(&stmts[4]).1, Type::U8));
    let (_, ty, value, _) = declared(&stmts[5]);
    assert!(matches!(ty, Type::I8));
    assert!(matches!(value, Expr::IntLiteral(-5)));
}

#[test]
fn untyped_declaration_needs_a_literal_value() {
    let (stmts, errors, success) = parse("var a = 1 + 2;\nprint(1);");
    assert!(!success);
    assert_eq!(errors.len(), 1);
    assert_eq!(errors[0].kind(), ParserErrorKind::InvalidVariableDecl);
    assert_eq!(errors[0].line(), 1);
    assert_eq!(errors[0].column(), 9);
    assert_eq!(stmts.len(), 1);
    assert!(matches!(&stmts[0], Stmt::Print(_)));
}

#[test]
fn untyped_declaration_of_a_declared_name_is_a_duplicate() {
    let (stmts, errors, success) = parse("var a = 1;\nvar a = 2;");
    assert!(!success);
    assert_eq!(stmts.len(), 1);
    assert_eq!(errors[0].kind(), ParserErrorKind::DuplicateVariableError);
}

#[test]
fn negative_literal_is_an_expression() {
    let (stmts, errors, success) = parse("for b in 10..-2..0 { print(b); }");
    assert!(success, "{:?}", errors);
    assert_eq!(stmts.len(), 1);
    match &stmts[0] {
        Stmt::ForLoop(f) => {
            assert_eq!(f.var, "b");
            assert!(matches!(f.start, Expr::IntLiteral(10)));
            assert!(matches!(f.step, Some(Expr::IntLiteral(-2))));
            assert!(matches!(f.end, Expr::IntLiteral(0)));
            assert_eq!(f.body.len(), 1);
            match &f.body[0] {
                Stmt::Print(es) => {
                    assert_eq!(es.len(), 1);
                    assert!(matches!(&es[0], Expr::Ident(n) if n == "b"));
                }
                other => panic!("unexpected statement {:?}", other),
            }
        }
        other => panic!("unexpected statement {:?}", other),
    }
    let (stmts, _, success) = parse("var i128 w = -9223372036854775809;");
    assert!(success);
    assert!(matches!(declared(&stmts[0]).2, Expr::I128Literal(-9223372036854775809)));
}

#[test]
fn end_of_input_token_is_only_last() {
    let tokens = lex("var int x = 5;\nprint(x);\n\nwhile (x < 3) { x += 1; }");
    let eofs = tokens.iter().filter(|t| matches!(t.kind, TokenKind::EOF)).count();
    assert_eq!(eofs, 1);
    assert!(matches!(tokens.last().unwrap().kind, TokenKind::EOF));
}
