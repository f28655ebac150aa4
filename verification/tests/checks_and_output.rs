use corvo7::compiler::codegen::Codegen;
use corvo7::compiler::lexer::{lex_lines, vec_literals_fit};
use corvo7::compiler::parser::{Expr, Mutability, Parser, Stmt, Type, VarDecl};
use corvo7::compiler::semantic::{SemanticAnalyzer, SemanticErrorKind, SemanticMessage};

const HEADER: &str = "#include <stdint.h>\n#include <stdio.h>\n#include <inttypes.h>\n#include <stdbool.h>\n\n\nvoid print_i128(__int128 n) {\n    if (n == 0) { printf(\"0\"); return; }\n    if (n < 0) { printf(\"-\"); n = -n; }\n    char str[40]; \n    int i = 0;\n    while (n > 0) {\n       str[i++] = (n % 10) + '0';\n       n /= 10;\n    }\n    while (i--) putchar(str[i]);\n    \n    putchar('\\n');\n}\n\n\n";

fn program(src: &str) -> Vec<Stmt> {
    let lines: Vec<String> = src.lines().map(|l| l.to_string()).collect();
    assert!(vec_literals_fit(&lines));
    let tokens = lex_lines(&lines).expect("lexer errors");
    let mut parser = Parser::new(tokens);
    let result = parser.try_parse().expect("the parser gave up");
    assert!(result.success, "parser errors: {:?}", result.errors);
    result.stmts
}

fn errors_of(src: &str) -> Vec<SemanticErrorKind> {
    let stmts = program(src);
    let mut analyzer = SemanticAnalyzer::new();
    let result = analyzer.analyze(&stmts);
    assert_eq!(result.success, result.errors.is_empty());
    result.errors.iter().map(|e| e.kind()).collect()
}

fn c_of(src: &str) -> String {
    let stmts = program(src);
    let mut codegen = Codegen::new();
    codegen.generate(&stmts)
}

#[test]
fn a_correct_program_passes_analysis() {
    assert!(errors_of("var int x = 5;\nprint(x);").is_empty());
}

#[test]
fn undeclared_variable_is_reported() {
    let stmts = program("print(y);");
    let mut analyzer = SemanticAnalyzer::new();
    let result = analyzer.analyze(&stmts);
    assert!(!result.success);
    assert_eq!(result.errors.len(), 1);
    assert_eq!(result.errors[0].kind(), SemanticErrorKind::UndeclaredVariable);
    assert!(matches!(result.errors[0].message(), SemanticMessage::UndeclaredVariable(n) if n == "y"));
}

#[test]
fn assignment_to_const_is_reported() {
    assert_eq!(errors_of("const int a = 1;\na = 2;"), vec![SemanticErrorKind::ImmutableAssignment]);
}

#[test]
fn assignment_to_var_is_accepted() {
    assert!(errors_of("var int a = 1;\na = 2;").is_empty());
}

#[test]
fn literal_out_of_range_is_reported() {
    let stmts = program("var i8 b = 300;");
    let mut analyzer = SemanticAnalyzer::new();
    let result = analyzer.analyze(&stmts);
    assert_eq!(result.errors.len(), 1);
    assert_eq!(result.errors[0].kind(), SemanticErrorKind::IntegerOverflow);
    match result.errors[0].message() {
        SemanticMessage::IntegerOutOfRange { value, ty } => {
            assert_eq!(*value, 300);
            assert!(matches!(ty, Type::I8));
        }
        other => panic!("unexpected message {:?}", other),
    }
}

#[test]
fn declaration_type_mismatch_is_reported() {
    assert_eq!(errors_of("var bool c = 5;"), vec![SemanticErrorKind::TypeMismatch]);
}

#[test]
fn int_accepts_any_signed_literal() {
    assert!(errors_of("var int c = 100000;").is_empty());
}

#[test]
fn break_outside_loop_is_reported() {
    assert_eq!(errors_of("break;"), vec![SemanticErrorKind::InvalidOperation]);
    assert!(errors_of("loop { break; }").is_empty());
}

#[test]
fn missing_return_is_reported() {
    assert_eq!(errors_of("fun int f() { print(1); }"), vec![SemanticErrorKind::MissingReturn]);
    assert!(errors_of("fun int f() { return 1; }").is_empty());
}

#[test]
fn argument_count_is_checked() {
    assert_eq!(
        errors_of("fun int f(int a) { return a; }\nprint(f(1, 2));"),
        vec![SemanticErrorKind::ArgumentCountMismatch]
    );
}

#[test]
fn redeclared_function_is_reported() {
    assert_eq!(
        errors_of("fun int f() { return 1; }\nfun int f() { return 2; }"),
        vec![SemanticErrorKind::RedeclaredVariable]
    );
}

#[test]
fn condition_must_be_bool() {
    assert_eq!(errors_of("while (1) { print(1); }"), vec![SemanticErrorKind::TypeMismatch]);
}

#[test]
fn ranges_of_types() {
    let analyzer = SemanticAnalyzer::new();
    assert_eq!(analyzer.type_range(&Type::I8), ("-128".to_string(), "127".to_string()));
    assert_eq!(analyzer.type_range(&Type::U16), ("0".to_string(), "65535".to_string()));
    assert_eq!(
        analyzer.type_range(&Type::I128),
        (
            "-170141183460469231731687303715884105728".to_string(),
            "170141183460469231731687303715884105727".to_string()
        )
    );
    assert_eq!(
        analyzer.type_range(&Type::U128),
        ("0".to_string(), "340282366920938463463374607431768211455".to_string())
    );
    assert_eq!(analyzer.type_range(&Type::Bool), ("?".to_string(), "?".to_string()));
}

#[test]
fn generates_declaration_and_print() {
    let c = c_of("var int x = 5;\nprint(x);");
    let expected = format!("{}int x = 5;\nprintf(\"%d\\n\", x); \n", HEADER);
    assert_eq!(c, expected);
}

#[test]
fn generated_file_starts_with_header() {
    let c = c_of("");
    assert_eq!(c, HEADER);
}

#[test]
fn i64_constant_gets_ll_suffix() {
    let c = c_of("const i64 y = 7;");
    assert_eq!(c, format!("{}const int64_t y = 7LL;\n", HEADER));
}

#[test]
fn for_loop_uses_numbered_step() {
    let c = c_of("for i in 0..10 { print(i); }");
    let body = "\n\tint __step0 = 1;\n\tfor (int i = 0; (__step0 > 0 ? i <= 10 : i >= 10); i += __step0)\n    {\n        printf(\"%d\\n\", i); \n    }";
    assert_eq!(c, format!("{}{}\n", HEADER, body));
}

#[test]
fn nested_for_loops_get_distinct_steps() {
    let c = c_of("for i in 0..2 { for j in 0..3 { print(j); } }");
    assert!(c.contains("__step0"));
    assert!(c.contains("__step1"));
    let inner = c.find("int __step0").unwrap();
    let outer = c.find("int __step1").unwrap();
    assert!(inner > outer);
}

#[test]
fn while_loop_body_is_indented() {
    let c = c_of("var int x = 0;\nwhile (x < 3) { x += 1; }");
    assert_eq!(c, format!("{}int x = 0;\nwhile(x < 3) {{\n            x += 1;\n    }}\n", HEADER));
}

#[test]
fn if_else_is_generated() {
    let c = c_of("var int x = 1;\nif (x == 1) { print(1); } else { print(2); }");
    let expected = format!(
        "{}int x = 1;\nif(x == 1){{\n       printf(\"%\" PRId8 \"\\n\", 1); \n    }}else {{\n       printf(\"%\" PRId8 \"\\n\", 2); \n    }}\n",
        HEADER
    );
    assert_eq!(c, expected);
}

#[test]
fn main_without_return_gets_return_zero() {
    let c = c_of("fun int main() { print(1); }");
    let expected = format!(
        "{}int main() {{\n    printf(\"%\" PRId8 \"\\n\", 1); \n    return 0;\n}}\n",
        HEADER
    );
    assert_eq!(c, expected);
}

#[test]
fn function_signature_lists_parameters() {
    let c = c_of("fun int add(int a, u8 b) { return a; }");
    let expected = format!("{}int add(int a, uint8_t b) {{\n    return a;\n}}\n", HEADER);
    assert_eq!(c, expected);
}

#[test]
fn wide_integer_literals_are_split() {
    let stmts = vec![Stmt::VarDecl(VarDecl {
        name: "w".to_string(),
        ty: Type::I128,
        value: Expr::I128Literal(-1),
        mutability: Mutability::Mutable,
    })];
    let mut codegen = Codegen::new();
    let c = codegen.generate(&stmts);
    assert_eq!(
        c,
        format!("{}__int128 w = ((__int128)-1 << 64 | (__int128)18446744073709551615ULL);\n", HEADER)
    );
}

#[test]
fn big_literal_from_source_is_split() {
    let c = c_of("var i128 w = 18446744073709551616;");
    assert_eq!(c, format!("{}__int128 w = ((__int128)1 << 64 | (__int128)0ULL);\n", HEADER));
}

#[test]
fn boolean_print_uses_true_false() {
    let c = c_of("var bool b = true;\nprint(b);");
    let expected = format!(
        "{}bool b = true;\nprintf(\"%s\\n\", (b) ? \"true\" : \"false\"); \n",
        HEADER
    );
    assert_eq!(c, expected);
}

#[test]
fn generating_one_more_statement_appends_its_text() {
    let one = c_of("print(1);");
    let two = c_of("print(1);\nprint(2);");
    assert_eq!(two, format!("{}printf(\"%\" PRId8 \"\\n\", 2); \n", one));
}

#[test]
fn compound_assignment_is_indented() {
    let c = c_of("var int x = 0;\nx -= 2;");
    assert_eq!(c, format!("{}int x = 0;\n    x -= 2;\n", HEADER));
}

#[test]
fn undeclared_function_is_reported() {
    assert_eq!(errors_of("print(g());"), vec![SemanticErrorKind::UndeclaredFunction]);
}

#[test]
fn wrong_return_type_is_reported() {
    assert_eq!(errors_of("fun bool f() { return 1; }"), vec![SemanticErrorKind::WrongReturnType]);
}

#[test]
fn argument_type_is_checked() {
    assert_eq!(
        errors_of("fun int f(bool a) { return 1; }\nprint(f(1));"),
        vec![SemanticErrorKind::ArgumentTypeMismatch]
    );
}

#[test]
fn zero_step_is_reported() {
    assert_eq!(errors_of("for i in 0..0..10 { print(i); }"), vec![SemanticErrorKind::InvalidStep]);
}

#[test]
fn operands_of_different_types_are_reported() {
    assert_eq!(errors_of("var bool b = true;\nprint(b + 1);"), vec![SemanticErrorKind::InvalidOperation]);
}

#[test]
fn while_loop_over_int_counter_passes_analysis() {
    let src = "var int i = 0;\nvar int sum = 0;\nwhile (i < 10) {\n    sum += i;\n    i += 1;\n}\nprint(sum);";
    assert!(errors_of(src).is_empty());
}

#[test]
fn int_operand_widens_a_literal() {
    assert!(errors_of("var int a = 5;\nvar int b = a + 1;\nvar bool c = 2 < a;").is_empty());
    assert!(errors_of("var uint a = 5u;\nvar uint b = 300u * a;").is_empty());
}

#[test]
fn literals_of_different_widths_are_still_reported() {
    assert_eq!(errors_of("print(300 + 1);"), vec![SemanticErrorKind::InvalidOperation]);
    assert_eq!(errors_of("var int a = 1;\nvar uint b = 2u;\nprint(a + b);"), vec![SemanticErrorKind::InvalidOperation]);
}

#[test]
fn unsigned_literal_print_format_is_well_formed() {
    assert_eq!(c_of("print(19u);"), format!("{}printf(\"%\" PRIu8 \"\\n\", 19); \n", HEADER));
    assert_eq!(c_of("print(70000u);"), format!("{}printf(\"%\" PRIu32 \"\\n\", 70000); \n", HEADER));
    assert_eq!(
        c_of("print(5000000000u);"),
        format!("{}printf(\"%\" PRIu64 \"\\n\", 5000000000); \n", HEADER)
    );
}

#[test]
fn negative_step_is_generated() {
    assert!(errors_of("for b in 10..-2..0 { print(b); }").is_empty());
    let c = c_of("for b in 10..-2..0 { print(b); }");
    assert!(c.contains("int __step0 = -2;"), "{}", c);
}

#[test]
fn untyped_declaration_is_generated_with_the_inferred_type() {
    let c = c_of("var variable1 = 10;\nprint(variable1);");
    assert_eq!(c, format!("{}int8_t variable1 = 10;\nprintf(\"%\" PRId8 \"\\n\", variable1); \n", HEADER));
}

#[test]
fn functions_are_recorded_and_outer_variables_restored() {
    let stmts = program("var int x = 1;\nfun int f(int a) { var int y = a; return y; }");
    let mut codegen = Codegen::new();
    let c = codegen.generate(&stmts);
    assert!(c.contains("int f(int a) {\n"));
    assert_eq!(codegen.symbols.len(), 1);
    assert_eq!(codegen.symbols[0].0, "x");
    assert_eq!(codegen.functions.len(), 1);
    assert_eq!(codegen.functions[0].0, "f");
    assert!(matches!(codegen.functions[0].1, Type::Int));
}

#[test]
fn step_number_counts_every_for_loop() {
    let stmts = program("for i in 0..2 { for j in 0..3 { print(j); } }\nfor k in 0..1 { print(k); }");
    let mut codegen = Codegen::new();
    let c = codegen.generate(&stmts);
    assert_eq!(codegen.step_num, 3);
    assert!(c.contains("int __step0 = 1;"));
    assert!(c.contains("int __step1 = 1;"));
    assert!(c.contains("int __step2 = 1;"));
}

#[test]
fn a_second_analysis_keeps_the_first_errors() {
    let mut analyzer = SemanticAnalyzer::new();
    let first = analyzer.analyze(&program("print(y);"));
    assert_eq!(first.errors.len(), 1);
    let second = analyzer.analyze(&program("var bool c = 5;"));
    assert!(!second.success);
    assert_eq!(second.errors.len(), 2);
    assert_eq!(second.errors[0].kind(), SemanticErrorKind::UndeclaredVariable);
    assert_eq!(second.errors[1].kind(), SemanticErrorKind::TypeMismatch);
    let empty = SemanticAnalyzer::new().analyze(&[]);
    assert!(empty.success);
    assert!(empty.errors.is_empty());
}
