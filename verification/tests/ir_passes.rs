use corvo7::compiler::codegenllc::CodegenLLC;
use corvo7::compiler::copy_propagation::run;
use corvo7::compiler::dce::eliminate_dead_temps;
use corvo7::compiler::ir::{BasicBlock, FunctionIR, IRProgram, Instr, Label, Temp, VarId};
use corvo7::compiler::lexer::{lex_lines, vec_literals_fit};
use corvo7::compiler::lowering::Lowering;
use corvo7::compiler::parser::{Parser, Stmt, Type};

const LLC_HEADER: &str = "#include <stdio.h>\n#include <stdbool.h>\n#include <stdint.h>\n\nvoid print_i128(__int128 n) {\n    if(n==0){printf(\"0\"); return;}\n    if(n<0){printf(\"-\"); n=-n;}\n    char str[40];\n    int i=0;\n    while(n>0){str[i++]=(n%10)+'0'; n/=10;}\n    while(i--) putchar(str[i]);\n    putchar('\\n');\n}\n\n";

fn program(src: &str) -> Vec<Stmt> {
    let lines: Vec<String> = src.lines().map(|l| l.to_string()).collect();
    assert!(vec_literals_fit(&lines));
    let tokens = lex_lines(&lines).expect("lexer errors");
    let mut parser = Parser::new(tokens);
    let result = parser.try_parse().expect("the parser gave up");
    assert!(result.success);
    result.stmts
}

fn lower(src: &str) -> IRProgram {
    let stmts = program(src);
    let mut lowering = Lowering::new();
    lowering.try_lower_program(&stmts, "main").expect("lowering stopped")
}

fn temp(id: usize) -> Temp {
    Temp::new(id, Type::Int)
}

#[test]
fn lowers_declaration_and_print() {
    let ir = lower("var int x = 1 + 2;\nprint(x);");
    assert_eq!(ir.functions.len(), 1);
    assert_eq!(ir.functions[0].name, "main");
    let blocks = &ir.functions[0].blocks;
    assert_eq!(blocks.len(), 1);
    assert_eq!(blocks[0].label, Label(0));
    let is = &blocks[0].instructions;
    assert_eq!(is.len(), 6);
    assert!(matches!(&is[0], Instr::ConstInt { dst, value: 1 } if dst.id == 0));
    assert!(matches!(&is[1], Instr::ConstInt { dst, value: 2 } if dst.id == 1));
    assert!(matches!(&is[2], Instr::Add { dst, lhs, rhs } if dst.id == 2 && lhs.id == 0 && rhs.id == 1));
    assert!(matches!(&is[3], Instr::Store { var: VarId(0), src } if src.id == 2));
    assert!(matches!(&is[4], Instr::Load { dst, id: VarId(0) } if dst.id == 3));
    assert!(matches!(&is[5], Instr::Print { temp } if temp.id == 3));
}

#[test]
fn generates_c_from_ir() {
    let ir = lower("var int x = 1 + 2;\nprint(x);");
    let c = CodegenLLC::new().generate(&ir);
    let expected = format!(
        "{}int main() {{\n    int64_t v0;\n    int t0;\n    int t1;\n    int t2;\n    int t3;\n\nL0:\n    t0 = 1;\n    t1 = 2;\n    t2 = t0 + t1;\n    v0 = t2;\n    t3 = v0;\n    printf(\"%d\\n\", t3);\n}}\n\n",
        LLC_HEADER
    );
    assert_eq!(c, expected);
}

#[test]
fn copy_propagation_redirects_loads() {
    let mut ir = lower("var int x = 1 + 2;\nprint(x);");
    run(&mut ir);
    let is = &ir.functions[0].blocks[0].instructions;
    assert_eq!(is.len(), 6);
    assert!(matches!(&is[5], Instr::Print { temp } if temp.id == 2));
    assert!(matches!(&is[4], Instr::Load { dst, .. } if dst.id == 3));
}

#[test]
fn dead_load_is_removed_after_propagation() {
    let mut ir = lower("var int x = 1 + 2;\nprint(x);");
    run(&mut ir);
    eliminate_dead_temps(&mut ir);
    let is = &ir.functions[0].blocks[0].instructions;
    assert_eq!(is.len(), 5);
    assert!(matches!(&is[3], Instr::Store { .. }));
    assert!(matches!(&is[4], Instr::Print { temp } if temp.id == 2));
}

#[test]
fn comparison_of_constants_is_folded() {
    let mut ir = lower("var bool b = 1 < 2;");
    run(&mut ir);
    let is = &ir.functions[0].blocks[0].instructions;
    assert!(matches!(&is[2], Instr::ConstBool { dst, value: true } if dst.id == 2));
}

#[test]
fn if_becomes_blocks_and_jumps() {
    let ir = lower("if (1 < 2) { print(1); }");
    let blocks = &ir.functions[0].blocks;
    assert_eq!(blocks.len(), 4);
    let b0 = &blocks[0].instructions;
    assert!(matches!(&b0[3], Instr::JumpIfFalse { cond, label: Label(2) } if cond.id == 2));
    assert!(matches!(&b0[4], Instr::Jump(Label(1))));
    assert!(matches!(blocks[1].instructions.last(), Some(Instr::Jump(Label(3)))));
    assert_eq!(blocks[2].instructions.len(), 1);
    assert!(matches!(blocks[2].instructions[0], Instr::Jump(Label(3))));
    assert!(blocks[3].instructions.is_empty());
}

#[test]
fn lowering_stops_on_unsupported_expression() {
    let stmts = program("print(\"text\");");
    let mut lowering = Lowering::new();
    assert!(lowering.try_lower_program(&stmts, "main").is_none());
}

#[test]
fn dce_keeps_effects_and_used_definitions() {
    let mut ir = IRProgram {
        functions: vec![FunctionIR {
            name: "f".to_string(),
            blocks: vec![BasicBlock {
                label: Label(0),
                instructions: vec![
                    Instr::ConstInt { dst: temp(0), value: 4 },
                    Instr::ConstInt { dst: temp(1), value: 5 },
                    Instr::Sub { dst: temp(2), lhs: temp(0), rhs: temp(1) },
                    Instr::Print { temp: temp(0) },
                    Instr::Return(None),
                ],
            }],
        }],
    };
    eliminate_dead_temps(&mut ir);
    let is = &ir.functions[0].blocks[0].instructions;
    assert_eq!(is.len(), 4);
    assert!(matches!(&is[0], Instr::ConstInt { value: 4, .. }));
    assert!(matches!(&is[1], Instr::Sub { .. }));
    assert!(matches!(&is[2], Instr::Print { .. }));
    assert!(matches!(&is[3], Instr::Return(None)));
}

#[test]
fn dce_on_empty_program_changes_nothing() {
    let mut ir = IRProgram { functions: vec![] };
    eliminate_dead_temps(&mut ir);
    assert!(ir.functions.is_empty());
}

#[test]
fn llc_declares_each_temporary_once() {
    let ir = IRProgram {
        functions: vec![FunctionIR {
            name: "g".to_string(),
            blocks: vec![
                BasicBlock {
                    label: Label(0),
                    instructions: vec![
                        Instr::ConstBool { dst: Temp::new(0, Type::Bool), value: false },
                        Instr::Jump(Label(1)),
                    ],
                },
                BasicBlock {
                    label: Label(1),
                    instructions: vec![
                        Instr::ConstBool { dst: Temp::new(0, Type::Bool), value: true },
                        Instr::Print { temp: Temp::new(0, Type::Bool) },
                        Instr::Return(Some(Temp::new(0, Type::Bool))),
                    ],
                },
            ],
        }],
    };
    let c = CodegenLLC::new().generate(&ir);
    let expected = format!(
        "{}void g() {{\n    bool t0;\n\nL0:\n    t0 = false;\n    goto L1;\nL1:\n    t0 = true;\n    printf(\"%s\\n\", (t0) ? \"true\" : \"false\");\n    return t0;\n}}\n\n",
        LLC_HEADER
    );
    assert_eq!(c, expected);
}

#[test]
fn nothing_is_lowered_after_a_return() {
    let ir = lower("return 1;\nreturn 2;");
    let is = &ir.functions[0].blocks[0].instructions;
    assert_eq!(is.len(), 2);
    assert!(matches!(&is[0], Instr::ConstInt { value: 1, .. }));
    assert!(matches!(&is[1], Instr::Return(Some(t)) if t.id == 0));
}

#[test]
fn each_value_gets_a_fresh_temporary() {
    let ir = lower("var int a = 1;\nvar int b = a + 2;");
    let is = &ir.functions[0].blocks[0].instructions;
    let mut ids = Vec::new();
    for i in is {
        match i {
            Instr::ConstInt { dst, .. } | Instr::Load { dst, .. } | Instr::Add { dst, .. } => ids.push(dst.id),
            _ => {}
        }
    }
    assert_eq!(ids, vec![0, 1, 2, 3]);
}

#[test]
fn lowered_labels_are_distinct_and_jumps_land_on_blocks() {
    let ir = lower("var int x = 1;\nif (x < 2) { print(x); if (x > 0) { print(1); } } else { return x; }\nprint(2);");
    let blocks = &ir.functions[0].blocks;
    assert_eq!(blocks.len(), 7);
    for (i, b) in blocks.iter().enumerate() {
        assert_eq!(b.label, Label(i));
        for ins in &b.instructions {
            let target = match ins {
                Instr::Jump(l) => Some(*l),
                Instr::JumpIfFalse { label, .. } => Some(*label),
                _ => None,
            };
            if let Some(l) = target {
                assert!(blocks.iter().any(|other| other.label == l));
            }
        }
    }
}
