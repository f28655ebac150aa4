//! C source generation from parsed statements.
use vstd::prelude::*;
use crate::compiler::parser::{
    exprs_view, lemma_call_view, lemma_for_view, lemma_func_view, lemma_if_view, lemma_loop_view,
    lemma_print_view, lemma_simple_stmt_views, lemma_vec_view, lemma_when_view, lemma_while_view,
    arms_view, opt_block_view, opt_expr_view, stmts_view, BinOp, Expr, ExprV, ForLoop, FuncDecl,
    IfStatement, Loop, Mutability, Stmt, StmtV, Type, VarDecl, WhenStatement, WhileLoop,
};
use crate::compiler::semantic::{binop_value, body_has_return, has_return, trunc_div, trunc_rem, truth};
use crate::compiler::text::{
    chars_of, chars_eq_str, decimal, decimal_int, is_whitespace, push_char, push_i128, push_str,
    push_u128, spec_is_whitespace,
};

verus! {

/// Generates C source. Variables and functions seen so far are remembered
/// with their types, to choose how `print` formats a value; `step_num`
/// numbers the step variables of `for` loops.
pub struct Codegen {
    pub step_num: usize,
    pub functions: Vec<(String, Type)>,
    pub symbols: Vec<(String, Type)>,
}

/// The generator's state: variables (in the current function) and
/// functions with their types, later entries shadowing earlier ones, and the
/// next step number.
pub struct CgState {
    pub symbols: Seq<(String, Type)>,
    pub functions: Seq<(String, Type)>,
    pub step_num: int,
}

impl Codegen {
    pub open spec fn view(&self) -> CgState {
        CgState { symbols: self.symbols@, functions: self.functions@, step_num: self.step_num as int }
    }
}

/// The type last recorded for `name` among the first `k` entries.
pub open spec fn latest(m: Seq<(String, Type)>, name: Seq<char>, k: int) -> Option<Type>
    decreases k,
{
    if k <= 0 || k > m.len() {
        None
    } else if m[k - 1].0@ == name {
        Some(m[k - 1].1)
    } else {
        latest(m, name, k - 1)
    }
}

pub open spec fn lookup_type(m: Seq<(String, Type)>, name: Seq<char>) -> Option<Type> {
    latest(m, name, m.len() as int)
}

/// The C name of a type.
pub open spec fn c_type_name(t: Type) -> Seq<char> {
    match t {
        Type::U8 => "uint8_t"@,
        Type::U16 => "uint16_t"@,
        Type::U32 => "uint32_t"@,
        Type::U64 => "uint64_t"@,
        Type::UInt => "uint64_t"@,
        Type::U128 => "unsigned __int128"@,
        Type::I8 => "int8_t"@,
        Type::I16 => "int16_t"@,
        Type::I32 => "int32_t"@,
        Type::I64 => "int64_t"@,
        Type::I128 => "__int128"@,
        Type::Bool => "bool"@,
        Type::Str => "char*"@,
        Type::Void => "void"@,
        _ => "int"@,
    }
}

/// The C operator written for a binary operator (`unknown` where there is
/// none).
pub open spec fn op_text(op: BinOp) -> Seq<char> {
    match op {
        BinOp::Add => "+"@,
        BinOp::Sub => "-"@,
        BinOp::Mul => "*"@,
        BinOp::Div => "/"@,
        BinOp::DoubleEqual => "=="@,
        BinOp::Greater => ">"@,
        BinOp::GreaterEqual => ">="@,
        BinOp::Less => "<"@,
        BinOp::LessEqual => "<="@,
        BinOp::Percent => "%"@,
        BinOp::IndentityOp => "=="@,
        _ => "unknown"@,
    }
}

pub open spec fn bool_text(b: bool) -> Seq<char> {
    if b { "true"@ } else { "false"@ }
}

/// Two to the 64th.
pub open spec fn two64() -> int {
    0x1_0000_0000_0000_0000
}

/// The C text of an expression.
pub open spec fn gen_expr_spec(e: ExprV) -> Seq<char>
    decreases e, 1nat,
{
    match e {
        ExprV::UIntLiteral(v) => decimal(v as nat),
        ExprV::IntLiteral(v) => decimal_int(v as int),
        ExprV::I128Literal(v) => "((__int128)"@ + decimal_int((v as int) / two64()) + " << 64 | (__int128)"@
            + decimal_int((v as int) % two64()) + "ULL)"@,
        ExprV::U128Literal(v) => "((unsigned __int128)"@ + decimal(((v as int) / two64()) as nat)
            + " << 64 | (unsigned __int128)"@ + decimal(((v as int) % two64()) as nat) + ")"@,
        ExprV::BoolLiteral(v) => bool_text(v),
        ExprV::StringLiteral(v) => "\""@ + v@ + "\""@,
        ExprV::Ident(s) => s@,
        ExprV::Vec { values, size: _ } => if values.len() == 0 {
            "{0}"@
        } else {
            gen_list_spec(values, 0, "{"@) + "}"@
        },
        ExprV::BinaryOp { left, op, right } => gen_expr_spec(*left) + " "@ + op_text(op) + " "@ + gen_expr_spec(
            *right,
        ),
        ExprV::Identity { expr, negated } => if negated {
            "(!"@ + gen_expr_spec(*expr) + ")"@
        } else {
            "("@ + gen_expr_spec(*expr) + ")"@
        },
        ExprV::Call { name, args } => gen_list_spec(args, 0, name@ + "("@) + ")"@,
        _ => "0"@,
    }
}

/// `acc` followed by the texts of `es` from index `i` on, separated by
/// `, `.
pub open spec fn gen_list_spec(es: Seq<ExprV>, i: int, acc: Seq<char>) -> Seq<char>
    decreases es, es.len() - i,
{
    if i < 0 || i >= es.len() {
        acc
    } else if i == 0 {
        gen_list_spec(es, i + 1, acc + gen_expr_spec(es[i]))
    } else {
        gen_list_spec(es, i + 1, acc + ", "@ + gen_expr_spec(es[i]))
    }
}

/// The operators whose result `print` shows as `true` or `false`.
pub open spec fn is_comparison_spec(op: BinOp) -> bool {
    op == BinOp::DoubleEqual || op == BinOp::NotEqual || op == BinOp::Greater || op == BinOp::GreaterEqual
        || op == BinOp::Less || op == BinOp::LessEqual || op == BinOp::IndentityOp
}

/// The `printf` format chosen for an expression (or a marker asking for
/// other code), and whether the value is shown as `true`/`false`.
pub open spec fn format_spec(cg: CgState, e: ExprV) -> (Seq<char>, bool) {
    match e {
        ExprV::IntLiteral(v) => if -0x80 <= v <= 0x7f {
            ("\"%\" PRId8 \"\\n\""@, false)
        } else if -0x8000 <= v <= 0x7fff {
            ("\"%\" PRId16 \"\\n\""@, false)
        } else if -0x8000_0000 <= v <= 0x7fff_ffff {
            ("\"%\" PRId32 \"\\n\""@, false)
        } else {
            ("\"%\" PRId64 \"\\n\""@, false)
        },
        ExprV::Ident(name) => match lookup_type(cg.symbols, name@) {
            Some(t) => match t {
                Type::I8 => ("\"%\" PRId8 \"\\n\""@, false),
                Type::I16 => ("\"%\" PRId16 \"\\n\""@, false),
                Type::I32 => ("\"%\" PRId32 \"\\n\""@, false),
                Type::I64 => ("\"%\" PRId64 \"\\n\""@, false),
                Type::I128 => ("special_i128"@, false),
                Type::U8 => ("\"%\" PRIu8 \"\\n\""@, false),
                Type::U16 => ("\"%\" PRIu16 \"\\n\""@, false),
                Type::U32 => ("\"%\" PRIu32 \"\\n\""@, false),
                Type::U64 => ("\"%\" PRIu64 \"\\n\""@, false),
                Type::U128 => ("special_u128"@, false),
                Type::Str => ("\"%s\\n\""@, false),
                Type::Bool => ("\"%s\\n\""@, true),
                _ => ("\"%d\\n\""@, false),
            },
            None => ("\"%d\\n\""@, false),
        },
        ExprV::UIntLiteral(v) => if v <= 0xff {
            ("\"%\" PRIu8 \"\\n\""@, false)
        } else if v <= 0xffff {
            ("\"%\" PRIu16 \"\\n\""@, false)
        } else if v <= 0xffff_ffff {
            ("\"%\" PRIu32 \"\\n\""@, false)
        } else {
            ("\"%\" PRIu64 \"\\n\""@, false)
        },
        ExprV::I128Literal(_) => ("special_i128"@, false),
        ExprV::U128Literal(_) => ("special_u128"@, false),
        ExprV::BoolLiteral(_) => ("\"%s\\n"@, true),
        ExprV::Call { name, .. } => match lookup_type(cg.functions, name@) {
            Some(t) => match t {
                Type::Void => ("void_call"@, false),
                Type::Str => ("\"%s\\n\""@, false),
                Type::Bool => ("\"%s\\n\""@, true),
                Type::I32 => ("\"%\" PRId32 \"\\n\""@, false),
                Type::I64 => ("\"%\" PRId64 \"\\n\""@, false),
                Type::I128 => ("special_i128"@, false),
                _ => ("\"%d\\n\""@, false),
            },
            None => ("\"%d\\n\""@, false),
        },
        ExprV::BinaryOp { op, .. } => if is_comparison_spec(op) {
            ("\"%s\\n"@, true)
        } else {
            ("isbinop"@, false)
        },
        ExprV::StringLiteral(_) => ("\"%s\\n\""@, false),
        _ => ("\"%d\\n\""@, false),
    }
}

/// The code that prints one expression.
pub open spec fn print_piece(cg: CgState, e: ExprV) -> Seq<char> {
    let val = gen_expr_spec(e);
    let (fmt, ternary) = format_spec(cg, e);
    if fmt == "special_i128"@ {
        "print_i128("@ + val + "); "@
    } else if fmt == "isbinop"@ {
        "printf(\"%d\\n\", "@ + val + ");"@
    } else if fmt == "void_call"@ {
        val + ";"@
    } else if ternary {
        "printf(\"%s\\n\", ("@ + val + ") ? \"true\" : \"false\"); "@
    } else {
        "printf("@ + fmt + ", "@ + val + "); "@
    }
}

/// `acc` followed by the printing code of `es` from index `i` on.
pub open spec fn print_spec(cg: CgState, es: Seq<ExprV>, i: int, acc: Seq<char>) -> Seq<char>
    decreases es.len() - i,
{
    if i < 0 || i >= es.len() {
        acc
    } else {
        print_spec(cg, es, i + 1, acc + print_piece(cg, es[i]))
    }
}

// ---------------------------------------------------------------------
// Lines and indentation
// ---------------------------------------------------------------------

/// `l` without one final carriage return.
pub open spec fn strip_cr(l: Seq<char>) -> Seq<char> {
    if l.len() > 0 && l.last() == '\r' { l.drop_last() } else { l }
}

/// The lines of `s` from index `i` on, `cur` holding the part of the
/// current line before `i`: lines end at a newline (and lose one carriage
/// return before it); a last line without a newline counts if not empty.
pub open spec fn lines_from(s: Seq<char>, i: int, cur: Seq<char>) -> Seq<Seq<char>>
    decreases s.len() - i,
{
    if i < 0 || i >= s.len() {
        if cur.len() > 0 { seq![cur] } else { Seq::empty() }
    } else if s[i] == '\n' {
        seq![strip_cr(cur)] + lines_from(s, i + 1, Seq::empty())
    } else {
        lines_from(s, i + 1, cur.push(s[i]))
    }
}

pub open spec fn lines_of(s: Seq<char>) -> Seq<Seq<char>> {
    lines_from(s, 0, Seq::empty())
}

/// Lines joined with newlines between them.
pub open spec fn join_lines(ls: Seq<Seq<char>>) -> Seq<char>
    decreases ls.len(),
{
    if ls.len() == 0 {
        Seq::empty()
    } else if ls.len() == 1 {
        ls[0]
    } else {
        join_lines(ls.drop_last()) + "\n"@ + ls.last()
    }
}

pub open spec fn blank(l: Seq<char>) -> bool {
    forall|j: int| 0 <= j < l.len() ==> spec_is_whitespace(#[trigger] l[j])
}

pub open spec fn spaces(n: nat) -> Seq<char> {
    Seq::new(n, |j: int| ' ')
}

/// A line behind `n` spaces, unless it is blank.
pub open spec fn indent_line(n: nat, l: Seq<char>) -> Seq<char> {
    if blank(l) { l } else { spaces(n) + l }
}

/// Each line of `code` indented by `n` spaces, blank lines left as they
/// are, joined with newlines (so no newline at the end).
pub open spec fn indent_spec(n: nat, code: Seq<char>) -> Seq<char> {
    join_lines(lines_of(code).map_values(|l: Seq<char>| indent_line(n, l)))
}

// ---------------------------------------------------------------------
// Statements
// ---------------------------------------------------------------------

/// The C text of a compound assignment operator.
pub open spec fn compound_text(op: BinOp) -> Seq<char> {
    match op {
        BinOp::CompoundAdd => "+="@,
        BinOp::CompoundSub => "-="@,
        BinOp::CompoundMul => "*="@,
        _ => "/="@,
    }
}

pub open spec fn is_compound_spec(op: BinOp) -> bool {
    op == BinOp::CompoundAdd || op == BinOp::CompoundSub || op == BinOp::CompoundMul || op == BinOp::CompoundDiv
}

/// `acc` followed by each statement of `ss` from `i` on, each followed by a
/// newline.
pub open spec fn block_text_spec(cg: CgState, ss: Seq<StmtV>, i: int, acc: Seq<char>) -> (Seq<char>, CgState)
    decreases ss, ss.len() - i,
{
    if i < 0 || i >= ss.len() {
        (acc, cg)
    } else {
        let (t, cg1) = gen_stmt_spec(cg, ss[i]);
        block_text_spec(cg1, ss, i + 1, (acc + t).push('\n'))
    }
}

/// `acc` followed by each statement of `ss` from `i` on, each after `pre`
/// and before `post`.
pub open spec fn framed_spec(
    cg: CgState,
    ss: Seq<StmtV>,
    i: int,
    pre: Seq<char>,
    post: Seq<char>,
    acc: Seq<char>,
) -> (Seq<char>, CgState)
    decreases ss, ss.len() - i,
{
    if i < 0 || i >= ss.len() {
        (acc, cg)
    } else {
        let (t, cg1) = gen_stmt_spec(cg, ss[i]);
        framed_spec(cg1, ss, i + 1, pre, post, acc + pre + t + post)
    }
}

/// `acc` followed by the `case`s of the arms of a `when` from `i` on.
pub open spec fn arms_text_spec(cg: CgState, arms: Seq<(ExprV, Seq<StmtV>)>, i: int, acc: Seq<char>) -> (
    Seq<char>,
    CgState,
)
    decreases arms, arms.len() - i,
{
    if i < 0 || i >= arms.len() {
        (acc, cg)
    } else {
        let head = acc + "    case "@ + gen_expr_spec(arms[i].0) + ":\n"@;
        let (t, cg1) = framed_spec(cg, arms[i].1, 0, "        "@, ";\n"@, head);
        arms_text_spec(cg1, arms, i + 1, t + "        break;\n"@)
    }
}

/// The parameter list of a function: each as `type name`, separated by
/// `, `, `acc` holding those before `i`.
pub open spec fn params_text(ps: Seq<(Type, String)>, i: int, acc: Seq<char>) -> Seq<char>
    decreases ps.len() - i,
{
    if i < 0 || i >= ps.len() {
        acc
    } else if i == 0 {
        params_text(ps, i + 1, acc + c_type_name(ps[i].0) + " "@ + ps[i].1@)
    } else {
        params_text(ps, i + 1, acc + ", "@ + c_type_name(ps[i].0) + " "@ + ps[i].1@)
    }
}

/// The parameters as variables, in order.
pub open spec fn params_symbols(ps: Seq<(Type, String)>) -> Seq<(String, Type)> {
    ps.map_values(|p: (Type, String)| (p.1, p.0))
}

/// The C text of a statement and the generator's state after it.
pub open spec fn gen_stmt_spec(cg: CgState, s: StmtV) -> (Seq<char>, CgState)
    decreases s, 2nat,
{
    match s {
        StmtV::Print(es) => (print_spec(cg, es, 0, Seq::empty()), cg),
        StmtV::CompoundAssign { target, op, value } => (
            indent_spec(4, target@ + " "@ + compound_text(op) + " "@ + gen_expr_spec(value) + ";"@),
            cg,
        ),
        StmtV::Assignment { target, value } => (indent_spec(4, target@ + " = "@ + gen_expr_spec(value) + ";"@), cg),
        StmtV::VarDecl { name, ty, value, mutability } => var_decl_text(cg, name, ty, value, mutability),
        StmtV::Break => ("break;"@, cg),
        StmtV::Continue => ("continue;"@, cg),
        StmtV::FuncDecl { .. } => func_text(cg, s),
        StmtV::Return(e) => ("return "@ + gen_expr_spec(e) + ";"@, cg),
        StmtV::Loop { body } => {
            let (bt, cg1) = block_text_spec(cg, body, 0, Seq::empty());
            ("while(1)\n    {\n"@ + indent_spec(8, bt) + "\n    }"@, cg1)
        },
        StmtV::ForLoop { .. } => for_text(cg, s),
        StmtV::WhileLoop { cond, body } => {
            let (bt, cg1) = block_text_spec(cg, body, 0, Seq::empty());
            ("while("@ + gen_expr_spec(cond) + ") {\n"@ + indent_spec(8, bt) + "\n    }"@, cg1)
        },
        StmtV::WhenStatement { .. } => when_text(cg, s),
        StmtV::IfStatement { .. } => if_text(cg, s),
    }
}

/// A declaration: `const ` for a constant, then the type, name and value;
/// an array for a vector type; `LL` after the value of an `i64`. Variables
/// of other than vector type are recorded with their type.
pub open spec fn var_decl_text(cg: CgState, name: String, ty: Type, value: ExprV, mutability: Mutability) -> (
    Seq<char>,
    CgState,
) {
    let prefix = if mutability == Mutability::Const { "const "@ } else { ""@ };
    let val = gen_expr_spec(value);
    match ty {
        Type::Vec { inner, size } => (
            prefix + " "@ + c_type_name(*inner) + " "@ + name@ + "["@ + decimal(size as nat) + "] = "@ + val + ";"@,
            cg,
        ),
        _ => {
            let cg1 = CgState { symbols: cg.symbols.push((name, ty)), ..cg };
            if ty == Type::I64 {
                (prefix + c_type_name(ty) + " "@ + name@ + " = "@ + val + "LL;"@, cg1)
            } else {
                (prefix + c_type_name(ty) + " "@ + name@ + " = "@ + val + ";"@, cg1)
            }
        },
    }
}

/// A function: its signature, then its body with its parameters as the
/// only variables; `main` returning `int` without a top-level `return`
/// gets `return 0;`. The function is recorded with its return type and the
/// variables outside it are restored.
pub open spec fn func_text(cg: CgState, s: StmtV) -> (Seq<char>, CgState)
    decreases s, 1nat,
{
    match s {
        StmtV::FuncDecl { name, params, return_type, body } => {
            let ret = match return_type {
                Some(t) => t,
                None => Type::Void,
            };
            let (bt, cg1) = framed_spec(
                CgState { symbols: params_symbols(params), ..cg },
                body,
                0,
                "    "@,
                "\n"@,
                Seq::empty(),
            );
            let bt2 = if name@ == "main"@ && return_type == Some(Type::Int) && !has_return(body) {
                bt + "    return 0;\n"@
            } else {
                bt
            };
            (
                c_type_name(ret) + " "@ + name@ + "("@ + params_text(params, 0, Seq::empty()) + ") {\n"@ + bt2 + "}"@,
                CgState { symbols: cg.symbols, functions: cg1.functions.push((name, ret)), step_num: cg1.step_num },
            )
        },
        _ => (Seq::empty(), cg),
    }
}

/// A `for` loop: a step variable named by the step number (taken after the
/// body) holding the step (1 by default), and a C `for` that counts up or
/// down by its sign.
pub open spec fn for_text(cg: CgState, s: StmtV) -> (Seq<char>, CgState)
    decreases s, 1nat,
{
    match s {
        StmtV::ForLoop { var, start, step, end, body } => {
            let start_code = gen_expr_spec(start);
            let step_code = match step {
                Some(e) => gen_expr_spec(e),
                None => "1"@,
            };
            let end_code = gen_expr_spec(end);
            let (bt, cg1) = block_text_spec(cg, body, 0, Seq::empty());
            let step_name = "__step"@ + decimal(cg1.step_num as nat);
            let condition = "("@ + step_name + " > 0 ? "@ + var@ + " <= "@ + end_code + " : "@ + var@ + " >= "@
                + end_code + ")"@;
            (
                "\n\tint "@ + step_name + " = "@ + step_code + ";\n\tfor (int "@ + var@ + " = "@ + start_code + "; "@
                    + condition + "; "@ + var@ + " += "@ + step_name + ")\n    {\n"@ + indent_spec(8, bt) + "\n    }"@,
                CgState { step_num: cg1.step_num + 1, ..cg1 },
            )
        },
        _ => (Seq::empty(), cg),
    }
}

/// A `when`: a C `switch` with a `case` per arm and a `default` for the
/// `else` arm, each statement followed by `;` and each case by `break;`.
pub open spec fn when_text(cg: CgState, s: StmtV) -> (Seq<char>, CgState)
    decreases s, 1nat,
{
    match s {
        StmtV::WhenStatement { condition, arms, else_arm } => {
            let head = "switch("@ + gen_expr_spec(condition) + "){\n"@;
            let (t1, cg1) = arms_text_spec(cg, arms, 0, head);
            let (t2, cg2) = match else_arm {
                Some(b) => {
                    let (t, c) = framed_spec(cg1, b, 0, "        "@, ";\n"@, t1 + "    default:\n"@);
                    (t + "        break;\n"@, c)
                },
                None => (t1, cg1),
            };
            (t2 + "}\n"@, cg2)
        },
        _ => (Seq::empty(), cg),
    }
}

/// An `if`: the branches' statements each on a line of its own; an `else`
/// branch holding just another `if` is written `else if`.
pub open spec fn if_text(cg: CgState, s: StmtV) -> (Seq<char>, CgState)
    decreases s, 1nat,
{
    match s {
        StmtV::IfStatement { condition, then_branch, else_branch } => {
            let head = "if("@ + gen_expr_spec(condition) + "){\n"@;
            let (t1, cg1) = framed_spec(cg, then_branch, 0, "       "@, "\n"@, head);
            let t2 = t1 + "    }"@;
            match else_branch {
                Some(b) => if b.len() == 1 && b[0] is IfStatement {
                    let (t, c) = gen_stmt_spec(cg1, b[0]);
                    (t2 + "else "@ + t, c)
                } else {
                    let (t, c) = framed_spec(cg1, b, 0, "       "@, "\n"@, t2 + "else {\n"@);
                    (t + "    }"@, c)
                },
                None => (t2, cg1),
            }
        },
        _ => (Seq::empty(), cg),
    }
}

/// What code generation needs of a statement: each compound assignment has
/// a compound operator, and the step numbers of its `for` loops stay within
/// `usize` from `base` on.
pub open spec fn fors_in(s: StmtV) -> nat
    decreases s, 1nat,
{
    match s {
        StmtV::FuncDecl { body, .. } => block_fors(body, 0),
        StmtV::IfStatement { then_branch, else_branch, .. } => block_fors(then_branch, 0) + match else_branch {
            Some(b) => block_fors(b, 0),
            None => 0,
        },
        StmtV::ForLoop { body, .. } => 1 + block_fors(body, 0),
        StmtV::Loop { body } => block_fors(body, 0),
        StmtV::WhileLoop { body, .. } => block_fors(body, 0),
        StmtV::WhenStatement { arms, else_arm, .. } => arms_fors(arms, 0) + match else_arm {
            Some(b) => block_fors(b, 0),
            None => 0,
        },
        _ => 0,
    }
}

pub open spec fn block_fors(ss: Seq<StmtV>, i: int) -> nat
    decreases ss, ss.len() - i,
{
    if i < 0 || i >= ss.len() {
        0
    } else {
        fors_in(ss[i]) + block_fors(ss, i + 1)
    }
}

pub open spec fn arms_fors(arms: Seq<(ExprV, Seq<StmtV>)>, i: int) -> nat
    decreases arms, arms.len() - i,
{
    if i < 0 || i >= arms.len() {
        0
    } else {
        block_fors(arms[i].1, 0) + arms_fors(arms, i + 1)
    }
}

/// Every compound assignment in a statement has a compound operator.
pub open spec fn compounds_ok(s: StmtV) -> bool
    decreases s, 1nat,
{
    match s {
        StmtV::CompoundAssign { op, .. } => is_compound_spec(op),
        StmtV::FuncDecl { body, .. } => block_ok(body, 0),
        StmtV::IfStatement { then_branch, else_branch, .. } => block_ok(then_branch, 0) && match else_branch {
            Some(b) => block_ok(b, 0),
            None => true,
        },
        StmtV::ForLoop { body, .. } => block_ok(body, 0),
        StmtV::Loop { body } => block_ok(body, 0),
        StmtV::WhileLoop { body, .. } => block_ok(body, 0),
        StmtV::WhenStatement { arms, else_arm, .. } => arms_ok(arms, 0) && match else_arm {
            Some(b) => block_ok(b, 0),
            None => true,
        },
        _ => true,
    }
}

pub open spec fn block_ok(ss: Seq<StmtV>, i: int) -> bool
    decreases ss, ss.len() - i,
{
    if i < 0 || i >= ss.len() {
        true
    } else {
        compounds_ok(ss[i]) && block_ok(ss, i + 1)
    }
}

pub open spec fn arms_ok(arms: Seq<(ExprV, Seq<StmtV>)>, i: int) -> bool
    decreases arms, arms.len() - i,
{
    if i < 0 || i >= arms.len() {
        true
    } else {
        block_ok(arms[i].1, 0) && arms_ok(arms, i + 1)
    }
}

/// The declarations at the top of every generated file, including the
/// helper that prints a 128-bit integer.
pub open spec fn header_text() -> Seq<char> {
    "#include <stdint.h>\n#include <stdio.h>\n#include <inttypes.h>\n#include <stdbool.h>\n\n\nvoid print_i128(__int128 n) {\n    if (n == 0) { printf(\"0\"); return; }\n    if (n < 0) { printf(\"-\"); n = -n; }\n    char str[40]; \n    int i = 0;\n    while (n > 0) {\n       str[i++] = (n % 10) + '0';\n       n /= 10;\n    }\n    while (i--) putchar(str[i]);\n    \n    putchar('\\n');\n}\n\n\n"@
}

/// A whole file: the header, then each statement followed by a newline.
pub open spec fn generate_spec(cg: CgState, ss: Seq<StmtV>) -> (Seq<char>, CgState) {
    block_text_spec(cg, ss, 0, header_text())
}

// ---------------------------------------------------------------------
// Text helpers
// ---------------------------------------------------------------------

/// An owned copy of a string slice.
fn lit(s: &str) -> (r: String)
    ensures
        r@ == s@,
{
    s.to_owned()
}

/// Two string slices hold the same characters.
fn same_text(a: &str, b: &str) -> (r: bool)
    ensures
        r == (a@ == b@),
{
    let v = chars_of(a);
    chars_eq_str(&v, b)
}

fn is_blank(line: &Vec<char>) -> (r: bool)
    ensures
        r == blank(line@),
{
    let mut j: usize = 0;
    while j < line.len()
        invariant
            j <= line@.len(),
            forall|k: int| 0 <= k < j ==> spec_is_whitespace(#[trigger] line@[k]),
        decreases line.len() - j,
    {
        if !is_whitespace(line[j]) {
            return false;
        }
        j += 1;
    }
    true
}

/// A line behind `n` spaces, unless it is blank.
fn indent_piece(n: usize, line: &Vec<char>) -> (r: String)
    ensures
        r@ == indent_line(n as nat, line@),
{
    let mut v: Vec<char> = Vec::new();
    if !is_blank(line) {
        let mut k: usize = 0;
        while k < n
            invariant
                k <= n,
                v@ == spaces(k as nat),
            decreases n - k,
        {
            v.push(' ');
            k += 1;
            assert(v@ =~= spaces(k as nat));
        }
    }
    let ghost pre = v@;
    let mut j: usize = 0;
    while j < line.len()
        invariant
            j <= line@.len(),
            v@ == pre + line@.take(j as int),
        decreases line.len() - j,
    {
        v.push(line[j]);
        j += 1;
        assert(v@ =~= pre + line@.take(j as int));
    }
    assert(line@.take(line@.len() as int) =~= line@);
    assert(pre + line@ == if blank(line@) { line@ } else { spaces(n as nat) + line@ }) by {
        if blank(line@) {
            assert(pre =~= Seq::<char>::empty());
            assert(pre + line@ =~= line@);
        }
    }
    crate::compiler::text::string_from_chars(&v)
}

pub proof fn lemma_join_push(ls: Seq<Seq<char>>, x: Seq<char>)
    ensures
        join_lines(ls.push(x)) == if ls.len() == 0 { x } else { join_lines(ls) + "\n"@ + x },
{
    assert(ls.push(x).drop_last() =~= ls);
}

proof fn lemma_lines_step(s: Seq<char>, i: int, cur: Seq<char>)
    requires
        0 <= i < s.len(),
    ensures
        s[i] == '\n' ==> lines_from(s, i, cur) == seq![strip_cr(cur)] + lines_from(s, i + 1, Seq::empty()),
        s[i] != '\n' ==> lines_from(s, i, cur) == lines_from(s, i + 1, cur.push(s[i])),
{
}

impl Codegen {
    pub fn new() -> (r: Self)
        ensures
            r@ == (CgState { symbols: Seq::empty(), functions: Seq::empty(), step_num: 0 }),
    {
        Self { symbols: Vec::new(), functions: Vec::new(), step_num: 0 }
    }

    /// Each line of `code` indented by `spaces` spaces; blank lines stay as
    /// they are; lines are joined with newlines.
    fn indent_with(&self, spaces: usize, code: &str) -> (r: String)
        ensures
            r@ == indent_spec(spaces as nat, code@),
    {
        let cs = chars_of(code);
        let ghost f = |l: Seq<char>| indent_line(spaces as nat, l);
        let mut out = String::new();
        let mut cur: Vec<char> = Vec::new();
        let mut count: usize = 0;
        let ghost mut emitted: Seq<Seq<char>> = Seq::empty();
        let mut i: usize = 0;
        assert(out@ =~= join_lines(emitted.map_values(f)));
        while i < cs.len()
            invariant
                i <= cs@.len(),
                cs@ == code@,
                f == (|l: Seq<char>| indent_line(spaces as nat, l)),
                lines_of(code@) == emitted + lines_from(code@, i as int, cur@),
                out@ == join_lines(emitted.map_values(f)),
                count == emitted.len(),
                count <= i,
            decreases cs.len() - i,
        {
            proof {
                lemma_lines_step(code@, i as int, cur@);
            }
            if cs[i] == '\n' {
                let ghost c0 = cur@;
                if cur.len() > 0 && cur[cur.len() - 1] == '\r' {
                    cur.pop();
                }
                assert(cur@ == strip_cr(c0));
                let piece = indent_piece(spaces, &cur);
                proof {
                    lemma_join_push(emitted.map_values(f), f(cur@));
                    assert(emitted.push(cur@).map_values(f) =~= emitted.map_values(f).push(f(cur@)));
                }
                if count > 0 {
                    push_str(&mut out, "\n");
                }
                push_str(&mut out, piece.as_str());
                proof {
                    assert(emitted.push(cur@) + lines_from(code@, i + 1, Seq::empty()) =~= emitted + (seq![cur@]
                        + lines_from(code@, i + 1, Seq::empty())));
                    emitted = emitted.push(cur@);
                }
                count += 1;
                cur = Vec::new();
                assert(cur@ =~= Seq::<char>::empty());
            } else {
                cur.push(cs[i]);
            }
            i += 1;
        }
        if cur.len() > 0 {
            let piece = indent_piece(spaces, &cur);
            proof {
                lemma_join_push(emitted.map_values(f), f(cur@));
                assert(emitted.push(cur@).map_values(f) =~= emitted.map_values(f).push(f(cur@)));
                assert(emitted + seq![cur@] =~= emitted.push(cur@));
            }
            if count > 0 {
                push_str(&mut out, "\n");
            }
            push_str(&mut out, piece.as_str());
            proof {
                emitted = emitted.push(cur@);
            }
        } else {
            assert(emitted + Seq::<Seq<char>>::empty() =~= emitted);
        }
        out
    }
}

// ---------------------------------------------------------------------
// Expressions
// ---------------------------------------------------------------------

/// The type last recorded for `name`.
fn lookup(m: &Vec<(String, Type)>, name: &String) -> (r: Option<Type>)
    ensures
        r == lookup_type(m@, name@),
{
    let mut k: usize = m.len();
    while k > 0
        invariant
            k <= m@.len(),
            lookup_type(m@, name@) == latest(m@, name@, k as int),
        decreases k,
    {
        if m[k - 1].0 == *name {
            return Some(m[k - 1].1.clone());
        }
        k -= 1;
    }
    None
}

fn op_str(op: &BinOp) -> (r: &'static str)
    ensures
        r@ == op_text(*op),
{
    match op {
        BinOp::Add => "+",
        BinOp::Sub => "-",
        BinOp::Mul => "*",
        BinOp::Div => "/",
        BinOp::DoubleEqual => "==",
        BinOp::Greater => ">",
        BinOp::GreaterEqual => ">=",
        BinOp::Less => "<",
        BinOp::LessEqual => "<=",
        BinOp::Percent => "%",
        BinOp::IndentityOp => "==",
        _ => "unknown",
    }
}

proof fn lemma_split_i128(v: int)
    requires
        i128::MIN <= v <= i128::MAX,
    ensures
        v >= 0 ==> v / two64() == v / 0x1_0000_0000_0000_0000,
        v < 0 ==> v / two64() == -((-(v + 1)) / two64()) - 1,
        v % two64() == v - (v / two64()) * two64(),
        -0x8000_0000_0000_0000 <= v / two64() < 0x8000_0000_0000_0000,
        0 <= v % two64() < two64(),
{
    let d = two64();
    vstd::arithmetic::div_mod::lemma_fundamental_div_mod(v, d);
    if v < 0 {
        let a = -(v + 1);
        let q = a / d;
        let r = a % d;
        vstd::arithmetic::div_mod::lemma_fundamental_div_mod(a, d);
        vstd::arithmetic::div_mod::lemma_fundamental_div_mod_converse(v, d, -q - 1, d - r - 1);
    }
    assert(v / d >= -0x8000_0000_0000_0000) by (nonlinear_arith)
        requires v >= -0x8000_0000_0000_0000_0000_0000_0000_0000, d == 0x1_0000_0000_0000_0000,
            v == d * (v / d) + v % d, 0 <= v % d < d;
    assert(v / d < 0x8000_0000_0000_0000) by (nonlinear_arith)
        requires v <= 0x7fff_ffff_ffff_ffff_ffff_ffff_ffff_ffff, d == 0x1_0000_0000_0000_0000,
            v == d * (v / d) + v % d, 0 <= v % d < d;
}

impl Codegen {
    /// The C name of a type.
    fn gen_type(ty: &Type) -> (r: String)
        ensures
            r@ == c_type_name(*ty),
    {
        match ty {
            Type::U8 => lit("uint8_t"),
            Type::U16 => lit("uint16_t"),
            Type::U32 => lit("uint32_t"),
            Type::U64 => lit("uint64_t"),
            Type::UInt => lit("uint64_t"),
            Type::U128 => lit("unsigned __int128"),
            Type::I8 => lit("int8_t"),
            Type::I16 => lit("int16_t"),
            Type::I32 => lit("int32_t"),
            Type::I64 => lit("int64_t"),
            Type::I128 => lit("__int128"),
            Type::Bool => lit("bool"),
            Type::Str => lit("char*"),
            Type::Void => lit("void"),
            Type::Int => lit("int"),
            _ => lit("int"),
        }
    }

    fn is_comparison_op(&self, op: &BinOp) -> (r: bool)
        ensures
            r == is_comparison_spec(*op),
    {
        matches!(
            op,
            BinOp::DoubleEqual | BinOp::NotEqual | BinOp::Greater | BinOp::GreaterEqual | BinOp::Less
                | BinOp::LessEqual | BinOp::IndentityOp
        )
    }

    fn gen_expr(&self, expr: &Expr) -> (r: String)
        ensures
            r@ == gen_expr_spec(expr.view()),
        decreases expr, 1nat,
    {
        proof {
            reveal(Expr::view);
        }
        match expr {
            Expr::UIntLiteral(v) => {
                let mut s = String::new();
                push_u128(&mut s, *v as u128);
                assert(s@ =~= decimal(*v as nat));
                s
            },
            Expr::IntLiteral(v) => {
                let mut s = String::new();
                push_i128(&mut s, *v as i128);
                assert(s@ =~= decimal_int(*v as int));
                s
            },
            Expr::I128Literal(v) => {
                let v: i128 = *v;
                proof {
                    lemma_split_i128(v as int);
                }
                let high: i128 = if v >= 0 {
                    v / 0x1_0000_0000_0000_0000
                } else {
                    -((-(v + 1)) / 0x1_0000_0000_0000_0000) - 1
                };
                let low: i128 = v - high * 0x1_0000_0000_0000_0000;
                let mut s = lit("((__int128)");
                push_i128(&mut s, high);
                push_str(&mut s, " << 64 | (__int128)");
                push_i128(&mut s, low);
                push_str(&mut s, "ULL)");
                s
            },
            Expr::U128Literal(v) => {
                let high: u128 = *v / 0x1_0000_0000_0000_0000;
                let low: u128 = *v % 0x1_0000_0000_0000_0000;
                let mut s = lit("((unsigned __int128)");
                push_u128(&mut s, high);
                push_str(&mut s, " << 64 | (unsigned __int128)");
                push_u128(&mut s, low);
                push_str(&mut s, ")");
                s
            },
            Expr::BoolLiteral(v) => if *v {
                lit("true")
            } else {
                lit("false")
            },
            Expr::StringLiteral(v) => {
                let mut s = lit("\"");
                push_str(&mut s, v.as_str());
                push_str(&mut s, "\"");
                s
            },
            Expr::Ident(name) => name.clone(),
            Expr::Vec { values, size } => {
                proof {
                    lemma_vec_view(*values, *size);
                }
                if values.len() == 0 {
                    lit("{0}")
                } else {
                    let mut s = lit("{");
                    self.gen_list(values, &mut s);
                    push_str(&mut s, "}");
                    s
                }
            },
            Expr::BinaryOp { left, op, right } => {
                let mut s = self.gen_expr(left);
                push_str(&mut s, " ");
                push_str(&mut s, op_str(op));
                push_str(&mut s, " ");
                let r = self.gen_expr(right);
                push_str(&mut s, r.as_str());
                s
            },
            Expr::Identity { expr, negated } => {
                let inner = self.gen_expr(expr);
                let mut s = if *negated {
                    lit("(!")
                } else {
                    lit("(")
                };
                push_str(&mut s, inner.as_str());
                push_str(&mut s, ")");
                s
            },
            Expr::Call { name, args } => {
                proof {
                    lemma_call_view(*name, *args);
                }
                let mut s = name.clone();
                push_str(&mut s, "(");
                self.gen_list(args, &mut s);
                push_str(&mut s, ")");
                s
            },
            _ => lit("0"),
        }
    }

    /// Appends the texts of `es`, separated by `, `.
    fn gen_list(&self, es: &Vec<Expr>, out: &mut String)
        ensures
            final(out)@ == gen_list_spec(exprs_view(es@), 0, old(out)@),
        decreases es, 0nat,
    {
        let ghost ev = exprs_view(es@);
        let ghost goal = gen_list_spec(ev, 0, old(out)@);
        let mut i: usize = 0;
        while i < es.len()
            invariant
                i <= es@.len(),
                ev == exprs_view(es@),
                goal == gen_list_spec(ev, i as int, out@),
            decreases es.len() - i,
        {
            if i > 0 {
                push_str(out, ", ");
            }
            let t = self.gen_expr(&es[i]);
            push_str(out, t.as_str());
            i += 1;
        }
    }

    /// The `printf` format for an expression (or a marker asking for other
    /// code), a cast (for arithmetic), and whether the value is shown as
    /// `true`/`false`.
    fn gen_format_cast(&self, expr: &Expr) -> (r: (&'static str, Option<String>, bool))
        ensures
            (r.0@, r.2) == format_spec(self@, expr.view()),
            r.1 is Some <==> (expr.view() matches ExprV::BinaryOp { op, .. } && !is_comparison_spec(op)),
            r.1 matches Some(c) ==> c@ == "int64_t"@,
    {
        proof {
            reveal(Expr::view);
        }
        match expr {
            Expr::IntLiteral(v) => {
                if *v >= -0x80 && *v <= 0x7f {
                    ("\"%\" PRId8 \"\\n\"", None, false)
                } else if *v >= -0x8000 && *v <= 0x7fff {
                    ("\"%\" PRId16 \"\\n\"", None, false)
                } else if *v >= -0x8000_0000 && *v <= 0x7fff_ffff {
                    ("\"%\" PRId32 \"\\n\"", None, false)
                } else {
                    ("\"%\" PRId64 \"\\n\"", None, false)
                }
            },
            Expr::Ident(name) => {
                if let Some(ty) = lookup(&self.symbols, name) {
                    match ty {
                        Type::I8 => ("\"%\" PRId8 \"\\n\"", None, false),
                        Type::I16 => ("\"%\" PRId16 \"\\n\"", None, false),
                        Type::I32 => ("\"%\" PRId32 \"\\n\"", None, false),
                        Type::I64 => ("\"%\" PRId64 \"\\n\"", None, false),
                        Type::I128 => ("special_i128", None, false),
                        Type::U8 => ("\"%\" PRIu8 \"\\n\"", None, false),
                        Type::U16 => ("\"%\" PRIu16 \"\\n\"", None, false),
                        Type::U32 => ("\"%\" PRIu32 \"\\n\"", None, false),
                        Type::U64 => ("\"%\" PRIu64 \"\\n\"", None, false),
                        Type::U128 => ("special_u128", None, false),
                        Type::Str => ("\"%s\\n\"", None, false),
                        Type::Bool => ("\"%s\\n\"", None, true),
                        _ => ("\"%d\\n\"", None, false),
                    }
                } else {
                    ("\"%d\\n\"", None, false)
                }
            },
            Expr::UIntLiteral(v) => {
                if *v <= 0xff {
                    ("\"%\" PRIu8 \"\\n\"", None, false)
                } else if *v <= 0xffff {
                    ("\"%\" PRIu16 \"\\n\"", None, false)
                } else if *v <= 0xffff_ffff {
                    ("\"%\" PRIu32 \"\\n\"", None, false)
                } else {
                    ("\"%\" PRIu64 \"\\n\"", None, false)
                }
            },
            Expr::I128Literal(_) => ("special_i128", None, false),
            Expr::U128Literal(_) => ("special_u128", None, false),
            Expr::BoolLiteral(_) => ("\"%s\\n", None, true),
            Expr::Call { name, .. } => {
                if let Some(ret_ty) = lookup(&self.functions, name) {
                    match ret_ty {
                        Type::Void => ("void_call", None, false),
                        Type::Str => ("\"%s\\n\"", None, false),
                        Type::Bool => ("\"%s\\n\"", None, true),
                        Type::I32 => ("\"%\" PRId32 \"\\n\"", None, false),
                        Type::I64 => ("\"%\" PRId64 \"\\n\"", None, false),
                        Type::I128 => ("special_i128", None, false),
                        _ => ("\"%d\\n\"", None, false),
                    }
                } else {
                    ("\"%d\\n\"", None, false)
                }
            },
            Expr::BinaryOp { op, .. } => {
                if self.is_comparison_op(op) {
                    ("\"%s\\n", None, true)
                } else {
                    ("isbinop", Some(lit("int64_t")), false)
                }
            },
            Expr::StringLiteral(_) => ("\"%s\\n\"", None, false),
            _ => ("\"%d\\n\"", None, false),
        }
    }

    /// The code that prints one expression.
    fn print_one(&self, expr: &Expr) -> (r: String)
        ensures
            r@ == print_piece(self@, expr.view()),
    {
        let val = self.gen_expr(expr);
        let (fmt, _cast, is_ternary) = self.gen_format_cast(expr);
        if same_text(fmt, "special_i128") {
            let mut s = lit("print_i128(");
            push_str(&mut s, val.as_str());
            push_str(&mut s, "); ");
            s
        } else if same_text(fmt, "isbinop") {
            let mut s = lit("printf(\"%d\\n\", ");
            push_str(&mut s, val.as_str());
            push_str(&mut s, ");");
            s
        } else if same_text(fmt, "void_call") {
            let mut s = val;
            push_str(&mut s, ";");
            s
        } else if is_ternary {
            let mut s = lit("printf(\"%s\\n\", (");
            push_str(&mut s, val.as_str());
            push_str(&mut s, ") ? \"true\" : \"false\"); ");
            s
        } else {
            let mut s = lit("printf(");
            push_str(&mut s, fmt);
            push_str(&mut s, ", ");
            push_str(&mut s, val.as_str());
            push_str(&mut s, "); ");
            s
        }
    }

    fn gen_print(&self, exprs: &Vec<Expr>) -> (r: String)
        ensures
            r@ == print_spec(self@, exprs_view(exprs@), 0, Seq::empty()),
    {
        let ghost ev = exprs_view(exprs@);
        let ghost goal = print_spec(self@, ev, 0, Seq::empty());
        let mut code = String::new();
        let mut i: usize = 0;
        while i < exprs.len()
            invariant
                i <= exprs@.len(),
                ev == exprs_view(exprs@),
                goal == print_spec(self@, ev, i as int, code@),
            decreases exprs.len() - i,
        {
            let piece = self.print_one(&exprs[i]);
            push_str(&mut code, piece.as_str());
            i += 1;
        }
        code
    }
}

// ---------------------------------------------------------------------
// Statements
// ---------------------------------------------------------------------

/// The text of a `when`'s arms viewed as a sequence.
proof fn lemma_arm_block(arms: Seq<(Expr, Vec<Stmt>)>, i: int)
    requires
        0 <= i < arms.len(),
    ensures
        arms_view(arms)[i].1 == stmts_view(arms[i].1@),
        arms_view(arms)[i].0 == arms[i].0.view(),
{
}

impl Codegen {
    fn gen_stmt(&mut self, stmt: &Stmt) -> (r: String)
        requires
            compounds_ok(stmt.view()),
            old(self)@.step_num + fors_in(stmt.view()) <= usize::MAX,
        ensures
            (r@, final(self)@) == gen_stmt_spec(old(self)@, stmt.view()),
            old(self)@.step_num <= final(self)@.step_num <= old(self)@.step_num + fors_in(stmt.view()),
        decreases stmt, 3nat,
    {
        match stmt {
            Stmt::Print(exprs) => {
                proof {
                    lemma_print_view(*exprs);
                }
                self.gen_print(exprs)
            },
            Stmt::CompoundAssign { target, op, value } => {
                proof {
                    lemma_simple_stmt_views(*target, Type::Int, *value, Mutability::Const, *op);
                }
                let op_text: &str = match op {
                    BinOp::CompoundAdd => "+=",
                    BinOp::CompoundSub => "-=",
                    BinOp::CompoundMul => "*=",
                    _ => "/=",
                };
                let val_str = self.gen_expr(value);
                let mut code = target.clone();
                push_str(&mut code, " ");
                push_str(&mut code, op_text);
                push_str(&mut code, " ");
                push_str(&mut code, val_str.as_str());
                push_str(&mut code, ";");
                self.indent_with(4, code.as_str())
            },
            Stmt::Assignment(a) => {
                proof {
                    lemma_simple_stmt_views(a.target, Type::Int, a.value, Mutability::Const, BinOp::Add);
                }
                let mut code = a.target.clone();
                push_str(&mut code, " = ");
                let val = self.gen_expr(&a.value);
                push_str(&mut code, val.as_str());
                push_str(&mut code, ";");
                self.indent_with(4, code.as_str())
            },
            Stmt::VarDecl(v) => {
                proof {
                    lemma_simple_stmt_views(v.name, v.ty, v.value, v.mutability, BinOp::Add);
                }
                self.gen_var_decl(v)
            },
            Stmt::Break => {
                proof {
                    lemma_simple_stmt_views(arbitrary(), Type::Int, arbitrary(), Mutability::Const, BinOp::Add);
                }
                lit("break;")
            },
            Stmt::Continue => {
                proof {
                    lemma_simple_stmt_views(arbitrary(), Type::Int, arbitrary(), Mutability::Const, BinOp::Add);
                }
                lit("continue;")
            },
            Stmt::FuncDecl(f) => {
                proof {
                    lemma_func_view(*f);
                }
                self.gen_func(f)
            },
            Stmt::Return(e) => {
                proof {
                    lemma_simple_stmt_views(arbitrary(), Type::Int, *e, Mutability::Const, BinOp::Add);
                }
                let mut s = lit("return ");
                let val = self.gen_expr(e);
                push_str(&mut s, val.as_str());
                push_str(&mut s, ";");
                s
            },
            Stmt::Loop(l) => {
                proof {
                    lemma_loop_view(*l);
                }
                self.gen_loop(l)
            },
            Stmt::ForLoop(u) => {
                proof {
                    lemma_for_view(*u);
                }
                self.gen_for(u)
            },
            Stmt::WhileLoop(w) => {
                proof {
                    lemma_while_view(*w);
                }
                self.gen_while(w)
            },
            Stmt::WhenStatement(w) => {
                proof {
                    lemma_when_view(*w);
                }
                self.gen_when(w)
            },
            Stmt::IfStatement(i) => {
                proof {
                    lemma_if_view(*i);
                }
                self.gen_if(i)
            },
        }
    }

    fn gen_var_decl(&mut self, v: &VarDecl) -> (r: String)
        ensures
            (r@, final(self)@) == var_decl_text(old(self)@, v.name, v.ty, v.value.view(), v.mutability),
    {
        let mut out = match v.mutability {
            Mutability::Const => lit("const "),
            Mutability::Mutable => lit(""),
        };
        match &v.ty {
            Type::Vec { inner, size } => {
                let inner_ty = Self::gen_type(inner);
                let val = self.gen_expr(&v.value);
                push_str(&mut out, " ");
                push_str(&mut out, inner_ty.as_str());
                push_str(&mut out, " ");
                push_str(&mut out, v.name.as_str());
                push_str(&mut out, "[");
                push_u128(&mut out, *size as u128);
                push_str(&mut out, "] = ");
                push_str(&mut out, val.as_str());
                push_str(&mut out, ";");
                out
            },
            _ => {
                let ty = Self::gen_type(&v.ty);
                let val = self.gen_expr(&v.value);
                self.symbols.push((v.name.clone(), v.ty.clone()));
                push_str(&mut out, ty.as_str());
                push_str(&mut out, " ");
                push_str(&mut out, v.name.as_str());
                push_str(&mut out, " = ");
                push_str(&mut out, val.as_str());
                if matches!(v.ty, Type::I64) {
                    push_str(&mut out, "LL;");
                } else {
                    push_str(&mut out, ";");
                }
                out
            },
        }
    }

    /// Appends each statement of `body`, each followed by a newline.
    fn block_text(&mut self, body: &Vec<Stmt>, out: &mut String)
        requires
            block_ok(stmts_view(body@), 0),
            old(self)@.step_num + block_fors(stmts_view(body@), 0) <= usize::MAX,
        ensures
            (final(out)@, final(self)@) == block_text_spec(old(self)@, stmts_view(body@), 0, old(out)@),
            old(self)@.step_num <= final(self)@.step_num <= old(self)@.step_num + block_fors(stmts_view(body@), 0),
        decreases body, 1nat,
    {
        let ghost sv = stmts_view(body@);
        let ghost goal = block_text_spec(old(self)@, sv, 0, old(out)@);
        let mut i: usize = 0;
        while i < body.len()
            invariant
                i <= body@.len(),
                sv == stmts_view(body@),
                goal == block_text_spec(self@, sv, i as int, out@),
                block_ok(sv, i as int),
                old(self)@.step_num <= self@.step_num,
                self@.step_num + block_fors(sv, i as int) <= old(self)@.step_num + block_fors(sv, 0),
                old(self)@.step_num + block_fors(sv, 0) <= usize::MAX,
            decreases body.len() - i,
        {
            let t = self.gen_stmt(&body[i]);
            push_str(out, t.as_str());
            push_char(out, '\n');
            i += 1;
        }
    }

    /// Appends each statement of `body` between `pre` and `post`.
    fn framed(&mut self, body: &Vec<Stmt>, pre: &str, post: &str, out: &mut String)
        requires
            block_ok(stmts_view(body@), 0),
            old(self)@.step_num + block_fors(stmts_view(body@), 0) <= usize::MAX,
        ensures
            (final(out)@, final(self)@) == framed_spec(old(self)@, stmts_view(body@), 0, pre@, post@, old(out)@),
            old(self)@.step_num <= final(self)@.step_num <= old(self)@.step_num + block_fors(stmts_view(body@), 0),
        decreases body, 1nat,
    {
        let ghost sv = stmts_view(body@);
        let ghost goal = framed_spec(old(self)@, sv, 0, pre@, post@, old(out)@);
        let mut i: usize = 0;
        while i < body.len()
            invariant
                i <= body@.len(),
                sv == stmts_view(body@),
                goal == framed_spec(self@, sv, i as int, pre@, post@, out@),
                block_ok(sv, i as int),
                old(self)@.step_num <= self@.step_num,
                self@.step_num + block_fors(sv, i as int) <= old(self)@.step_num + block_fors(sv, 0),
                old(self)@.step_num + block_fors(sv, 0) <= usize::MAX,
            decreases body.len() - i,
        {
            let t = self.gen_stmt(&body[i]);
            push_str(out, pre);
            push_str(out, t.as_str());
            push_str(out, post);
            i += 1;
        }
    }

    fn gen_loop(&mut self, l: &Loop) -> (r: String)
        requires
            block_ok(stmts_view(l.body@), 0),
            old(self)@.step_num + block_fors(stmts_view(l.body@), 0) <= usize::MAX,
        ensures
            (r@, final(self)@) == gen_stmt_spec(old(self)@, StmtV::Loop { body: stmts_view(l.body@) }),
            old(self)@.step_num <= final(self)@.step_num <= old(self)@.step_num + block_fors(stmts_view(l.body@), 0),
        decreases l, 2nat,
    {
        let mut body_code = String::new();
        self.block_text(&l.body, &mut body_code);
        let mut s = lit("while(1)\n    {\n");
        let ind = self.indent_with(8, body_code.as_str());
        push_str(&mut s, ind.as_str());
        push_str(&mut s, "\n    }");
        s
    }

    fn gen_while(&mut self, w: &WhileLoop) -> (r: String)
        requires
            block_ok(stmts_view(w.body@), 0),
            old(self)@.step_num + block_fors(stmts_view(w.body@), 0) <= usize::MAX,
        ensures
            (r@, final(self)@) == gen_stmt_spec(
                old(self)@,
                StmtV::WhileLoop { cond: w.cond.view(), body: stmts_view(w.body@) },
            ),
            old(self)@.step_num <= final(self)@.step_num <= old(self)@.step_num + block_fors(stmts_view(w.body@), 0),
        decreases w, 2nat,
    {
        let cond = self.gen_expr(&w.cond);
        let mut body_code = String::new();
        self.block_text(&w.body, &mut body_code);
        let mut s = lit("while(");
        push_str(&mut s, cond.as_str());
        push_str(&mut s, ") {\n");
        let ind = self.indent_with(8, body_code.as_str());
        push_str(&mut s, ind.as_str());
        push_str(&mut s, "\n    }");
        s
    }

    fn gen_for(&mut self, u: &ForLoop) -> (r: String)
        requires
            block_ok(stmts_view(u.body@), 0),
            old(self)@.step_num + 1 + block_fors(stmts_view(u.body@), 0) <= usize::MAX,
        ensures
            (r@, final(self)@) == gen_stmt_spec(
                old(self)@,
                StmtV::ForLoop {
                    var: u.var,
                    start: u.start.view(),
                    step: opt_expr_view(u.step),
                    end: u.end.view(),
                    body: stmts_view(u.body@),
                },
            ),
            old(self)@.step_num <= final(self)@.step_num <= old(self)@.step_num + 1 + block_fors(
                stmts_view(u.body@),
                0,
            ),
        decreases u, 2nat,
    {
        let start_code = self.gen_expr(&u.start);
        let step_code = match &u.step {
            Some(step) => self.gen_expr(step),
            None => lit("1"),
        };
        let end_code = self.gen_expr(&u.end);
        let mut body_code = String::new();
        self.block_text(&u.body, &mut body_code);
        let mut step_name = lit("__step");
        push_u128(&mut step_name, self.step_num as u128);
        self.step_num = self.step_num + 1;
        let mut condition = lit("(");
        push_str(&mut condition, step_name.as_str());
        push_str(&mut condition, " > 0 ? ");
        push_str(&mut condition, u.var.as_str());
        push_str(&mut condition, " <= ");
        push_str(&mut condition, end_code.as_str());
        push_str(&mut condition, " : ");
        push_str(&mut condition, u.var.as_str());
        push_str(&mut condition, " >= ");
        push_str(&mut condition, end_code.as_str());
        push_str(&mut condition, ")");
        let mut s = lit("\n\tint ");
        push_str(&mut s, step_name.as_str());
        push_str(&mut s, " = ");
        push_str(&mut s, step_code.as_str());
        push_str(&mut s, ";\n\tfor (int ");
        push_str(&mut s, u.var.as_str());
        push_str(&mut s, " = ");
        push_str(&mut s, start_code.as_str());
        push_str(&mut s, "; ");
        push_str(&mut s, condition.as_str());
        push_str(&mut s, "; ");
        push_str(&mut s, u.var.as_str());
        push_str(&mut s, " += ");
        push_str(&mut s, step_name.as_str());
        push_str(&mut s, ")\n    {\n");
        let ind = self.indent_with(8, body_code.as_str());
        push_str(&mut s, ind.as_str());
        push_str(&mut s, "\n    }");
        s
    }
}

proof fn lemma_is_if(s: Stmt)
    ensures
        (s is IfStatement) == (s.view() is IfStatement),
{
    reveal(Stmt::view);
}

/// The text at the top of every generated file.
fn header() -> (r: &'static str)
    ensures
        r@ == header_text(),
{
    "#include <stdint.h>\n#include <stdio.h>\n#include <inttypes.h>\n#include <stdbool.h>\n\n\nvoid print_i128(__int128 n) {\n    if (n == 0) { printf(\"0\"); return; }\n    if (n < 0) { printf(\"-\"); n = -n; }\n    char str[40]; \n    int i = 0;\n    while (n > 0) {\n       str[i++] = (n % 10) + '0';\n       n /= 10;\n    }\n    while (i--) putchar(str[i]);\n    \n    putchar('\\n');\n}\n\n\n"
}

impl Codegen {
    /// Appends the `case`s of the arms of a `when`.
    fn arms_text(&mut self, arms: &Vec<(Expr, Vec<Stmt>)>, out: &mut String)
        requires
            arms_ok(arms_view(arms@), 0),
            old(self)@.step_num + arms_fors(arms_view(arms@), 0) <= usize::MAX,
        ensures
            (final(out)@, final(self)@) == arms_text_spec(old(self)@, arms_view(arms@), 0, old(out)@),
            old(self)@.step_num <= final(self)@.step_num <= old(self)@.step_num + arms_fors(arms_view(arms@), 0),
        decreases arms, 1nat,
    {
        let ghost av = arms_view(arms@);
        let ghost goal = arms_text_spec(old(self)@, av, 0, old(out)@);
        let mut i: usize = 0;
        while i < arms.len()
            invariant
                i <= arms@.len(),
                av == arms_view(arms@),
                goal == arms_text_spec(self@, av, i as int, out@),
                arms_ok(av, i as int),
                old(self)@.step_num <= self@.step_num,
                self@.step_num + arms_fors(av, i as int) <= old(self)@.step_num + arms_fors(av, 0),
                old(self)@.step_num + arms_fors(av, 0) <= usize::MAX,
            decreases arms.len() - i,
        {
            proof {
                lemma_arm_block(arms@, i as int);
            }
            push_str(out, "    case ");
            let value = self.gen_expr(&arms[i].0);
            push_str(out, value.as_str());
            push_str(out, ":\n");
            self.framed(&arms[i].1, "        ", ";\n", out);
            push_str(out, "        break;\n");
            i += 1;
        }
    }

    fn gen_when(&mut self, w: &WhenStatement) -> (r: String)
        requires
            arms_ok(arms_view(w.arms@), 0),
            match opt_block_view(w.else_arm) {
                Some(b) => block_ok(b, 0),
                None => true,
            },
            old(self)@.step_num + arms_fors(arms_view(w.arms@), 0) + match opt_block_view(w.else_arm) {
                Some(b) => block_fors(b, 0),
                None => 0,
            } <= usize::MAX,
        ensures
            (r@, final(self)@) == gen_stmt_spec(
                old(self)@,
                StmtV::WhenStatement {
                    condition: w.condition.view(),
                    arms: arms_view(w.arms@),
                    else_arm: opt_block_view(w.else_arm),
                },
            ),
            old(self)@.step_num <= final(self)@.step_num <= old(self)@.step_num + arms_fors(arms_view(w.arms@), 0)
                + match opt_block_view(w.else_arm) {
                Some(b) => block_fors(b, 0),
                None => 0,
            },
        decreases w, 2nat,
    {
        let cond = self.gen_expr(&w.condition);
        let mut out = lit("switch(");
        push_str(&mut out, cond.as_str());
        push_str(&mut out, "){\n");
        self.arms_text(&w.arms, &mut out);
        if let Some(block) = &w.else_arm {
            push_str(&mut out, "    default:\n");
            self.framed(block, "        ", ";\n", &mut out);
            push_str(&mut out, "        break;\n");
        }
        push_str(&mut out, "}\n");
        out
    }

    fn gen_if(&mut self, i: &IfStatement) -> (r: String)
        requires
            block_ok(stmts_view(i.then_branch@), 0),
            match opt_block_view(i.else_branch) {
                Some(b) => block_ok(b, 0),
                None => true,
            },
            old(self)@.step_num + block_fors(stmts_view(i.then_branch@), 0) + match opt_block_view(i.else_branch) {
                Some(b) => block_fors(b, 0),
                None => 0,
            } <= usize::MAX,
        ensures
            (r@, final(self)@) == gen_stmt_spec(
                old(self)@,
                StmtV::IfStatement {
                    condition: i.condition.view(),
                    then_branch: stmts_view(i.then_branch@),
                    else_branch: opt_block_view(i.else_branch),
                },
            ),
            old(self)@.step_num <= final(self)@.step_num <= old(self)@.step_num + block_fors(
                stmts_view(i.then_branch@),
                0,
            ) + match opt_block_view(i.else_branch) {
                Some(b) => block_fors(b, 0),
                None => 0,
            },
        decreases i, 2nat,
    {
        let cond = self.gen_expr(&i.condition);
        let mut out = lit("if(");
        push_str(&mut out, cond.as_str());
        push_str(&mut out, "){\n");
        self.framed(&i.then_branch, "       ", "\n", &mut out);
        push_str(&mut out, "    }");
        if let Some(else_b) = &i.else_branch {
            if else_b.len() == 1 && matches!(else_b[0], Stmt::IfStatement(_)) {
                proof {
                    lemma_is_if(else_b@[0]);
                }
                push_str(&mut out, "else ");
                let t = self.gen_stmt(&else_b[0]);
                push_str(&mut out, t.as_str());
            } else {
                proof {
                    if else_b@.len() == 1 {
                        lemma_is_if(else_b@[0]);
                    }
                }
                push_str(&mut out, "else {\n");
                self.framed(else_b, "       ", "\n", &mut out);
                push_str(&mut out, "    }");
            }
        }
        out
    }

    fn gen_func(&mut self, f: &FuncDecl) -> (r: String)
        requires
            block_ok(stmts_view(f.body@), 0),
            old(self)@.step_num + block_fors(stmts_view(f.body@), 0) <= usize::MAX,
        ensures
            (r@, final(self)@) == gen_stmt_spec(
                old(self)@,
                StmtV::FuncDecl {
                    name: f.name,
                    params: f.params@,
                    return_type: f.return_type,
                    body: stmts_view(f.body@),
                },
            ),
            old(self)@.step_num <= final(self)@.step_num <= old(self)@.step_num + block_fors(stmts_view(f.body@), 0),
        decreases f, 2nat,
    {
        let mut old_symbols: Vec<(String, Type)> = Vec::new();
        std::mem::swap(&mut old_symbols, &mut self.symbols);
        let ret: Type = match &f.return_type {
            Some(t) => t.clone(),
            None => Type::Void,
        };
        let ret_ty = Self::gen_type(&ret);
        let ghost ps = f.params@;
        let mut params_str = String::new();
        let mut i: usize = 0;
        while i < f.params.len()
            invariant
                i <= ps.len(),
                ps == f.params@,
                params_text(ps, 0, Seq::empty()) == params_text(ps, i as int, params_str@),
                self.symbols@ == params_symbols(ps.take(i as int)),
                self.step_num == old(self).step_num,
                self.functions@ == old(self).functions@,
                old_symbols@ == old(self).symbols@,
                ret_ty@ == c_type_name(ret),
                ret == (match f.return_type {
                    Some(t) => t,
                    None => Type::Void,
                }),
            decreases f.params.len() - i,
        {
            if i > 0 {
                push_str(&mut params_str, ", ");
            }
            let tn = Self::gen_type(&f.params[i].0);
            push_str(&mut params_str, tn.as_str());
            push_str(&mut params_str, " ");
            push_str(&mut params_str, f.params[i].1.as_str());
            self.symbols.push((f.params[i].1.clone(), f.params[i].0.clone()));
            i += 1;
            assert(self.symbols@ =~= params_symbols(ps.take(i as int)));
        }
        assert(ps.take(ps.len() as int) =~= ps);
        let mut body = String::new();
        self.framed(&f.body, "    ", "\n", &mut body);
        let has_return = body_has_return(&f.body);
        if same_text(f.name.as_str(), "main") && matches!(f.return_type, Some(Type::Int)) && !has_return {
            push_str(&mut body, "    return 0;\n");
        }
        self.functions.push((f.name.clone(), ret));
        self.symbols = old_symbols;
        let mut out = ret_ty;
        push_str(&mut out, " ");
        push_str(&mut out, f.name.as_str());
        push_str(&mut out, "(");
        push_str(&mut out, params_str.as_str());
        push_str(&mut out, ") {\n");
        push_str(&mut out, body.as_str());
        push_str(&mut out, "}");
        out
    }

    /// The C file for a program: the header, then each statement followed
    /// by a newline.
    pub fn generate(&mut self, stmts: &[Stmt]) -> (r: String)
        requires
            block_ok(stmts_view(stmts@), 0),
            old(self)@.step_num + block_fors(stmts_view(stmts@), 0) <= usize::MAX,
        ensures
            (r@, final(self)@) == generate_spec(old(self)@, stmts_view(stmts@)),
            old(self)@.step_num <= final(self)@.step_num <= old(self)@.step_num + block_fors(stmts_view(stmts@), 0),
    {
        let ghost sv = stmts_view(stmts@);
        let ghost goal = generate_spec(old(self)@, sv);
        let mut output = lit(header());
        let mut i: usize = 0;
        while i < stmts.len()
            invariant
                i <= stmts@.len(),
                sv == stmts_view(stmts@),
                goal == block_text_spec(self@, sv, i as int, output@),
                block_ok(sv, i as int),
                old(self)@.step_num <= self@.step_num,
                self@.step_num + block_fors(sv, i as int) <= old(self)@.step_num + block_fors(sv, 0),
                old(self)@.step_num + block_fors(sv, 0) <= usize::MAX,
            decreases stmts.len() - i,
        {
            let t = self.gen_stmt(&stmts[i]);
            push_str(&mut output, t.as_str());
            push_char(&mut output, '\n');
            i += 1;
        }
        output
    }
}

// ---------------------------------------------------------------------
// Laws
// ---------------------------------------------------------------------

proof fn lemma_block_text_prefix(cg: CgState, ss: Seq<StmtV>, i: int, acc: Seq<char>)
    ensures
        acc.len() <= block_text_spec(cg, ss, i, acc).0.len(),
        block_text_spec(cg, ss, i, acc).0.subrange(0, acc.len() as int) == acc,
    decreases ss.len() - i,
{
    if 0 <= i < ss.len() {
        let (t, cg1) = gen_stmt_spec(cg, ss[i]);
        let next = (acc + t).push('\n');
        lemma_block_text_prefix(cg1, ss, i + 1, next);
        let r = block_text_spec(cg1, ss, i + 1, next).0;
        assert(r.subrange(0, acc.len() as int) =~= r.subrange(0, next.len() as int).subrange(0, acc.len() as int));
        assert(next.subrange(0, acc.len() as int) =~= acc);
    } else {
        assert(acc.subrange(0, acc.len() as int) =~= acc);
    }
}

/// Every generated file begins with the C header (includes and the
/// 128-bit print helper).
pub proof fn law_generated_file_starts_with_header(cg: CgState, ss: Seq<StmtV>)
    ensures
        generate_spec(cg, ss).0.len() >= header_text().len(),
        generate_spec(cg, ss).0.subrange(0, header_text().len() as int) == header_text(),
{
    lemma_block_text_prefix(cg, ss, 0, header_text());
}

/// Generating the statements of a file one after another is generating
/// them together: the file for `ss` followed by `s` is the file for `ss`
/// with the text of `s` and a newline appended.
pub proof fn law_generate_appends(cg: CgState, ss: Seq<StmtV>, s: StmtV)
    ensures
        ({
            let (text, cg1) = generate_spec(cg, ss);
            let (t, cg2) = gen_stmt_spec(cg1, s);
            generate_spec(cg, ss.push(s)) == ((text + t).push('\n'), cg2)
        }),
{
    lemma_block_text_push(cg, ss, s, 0, header_text());
}

proof fn lemma_block_text_push(cg: CgState, ss: Seq<StmtV>, s: StmtV, i: int, acc: Seq<char>)
    requires
        0 <= i <= ss.len(),
    ensures
        ({
            let (text, cg1) = block_text_spec(cg, ss, i, acc);
            let (t, cg2) = gen_stmt_spec(cg1, s);
            block_text_spec(cg, ss.push(s), i, acc) == ((text + t).push('\n'), cg2)
        }),
    decreases ss.len() - i,
{
    if i < ss.len() {
        let (t, cg1) = gen_stmt_spec(cg, ss[i]);
        assert(ss.push(s)[i] == ss[i]);
        lemma_block_text_push(cg1, ss, s, i + 1, (acc + t).push('\n'));
    } else {
        assert(ss.push(s)[i] == s);
        let (t, cg2) = gen_stmt_spec(cg, s);
        assert(block_text_spec(cg2, ss.push(s), i + 1, (acc + t).push('\n')) == ((acc + t).push('\n'), cg2));
    }
}

// ---------------------------------------------------------------------
// What generation needs
// ---------------------------------------------------------------------

/// The `for` loops of `stmt`, where its compound assignments are all
/// proper and the count fits `usize`; `None` otherwise.
fn stmt_fors(stmt: &Stmt) -> (r: Option<usize>)
    ensures
        match r {
            Some(n) => compounds_ok(stmt.view()) && n == fors_in(stmt.view()),
            None => !compounds_ok(stmt.view()) || fors_in(stmt.view()) > usize::MAX,
        },
    decreases stmt, 1nat,
{
    match stmt {
        Stmt::CompoundAssign { target, op, value } => {
            proof {
                lemma_simple_stmt_views(*target, Type::Int, *value, Mutability::Const, *op);
            }
            if matches!(op, BinOp::CompoundAdd | BinOp::CompoundSub | BinOp::CompoundMul | BinOp::CompoundDiv) {
                Some(0)
            } else {
                None
            }
        },
        Stmt::FuncDecl(f) => {
            proof {
                lemma_func_view(*f);
            }
            body_fors(&f.body)
        },
        Stmt::IfStatement(i) => {
            proof {
                lemma_if_view(*i);
            }
            let a = body_fors(&i.then_branch)?;
            match &i.else_branch {
                Some(b) => {
                    let c = body_fors(b)?;
                    a.checked_add(c)
                },
                None => Some(a),
            }
        },
        Stmt::ForLoop(f) => {
            proof {
                lemma_for_view(*f);
            }
            let a = body_fors(&f.body)?;
            a.checked_add(1)
        },
        Stmt::Loop(l) => {
            proof {
                lemma_loop_view(*l);
            }
            body_fors(&l.body)
        },
        Stmt::WhileLoop(w) => {
            proof {
                lemma_while_view(*w);
            }
            body_fors(&w.body)
        },
        Stmt::WhenStatement(w) => {
            proof {
                lemma_when_view(*w);
            }
            let a = arms_fors_exec(&w.arms)?;
            match &w.else_arm {
                Some(b) => {
                    let c = body_fors(b)?;
                    a.checked_add(c)
                },
                None => Some(a),
            }
        },
        _ => {
            proof {
                reveal(Stmt::view);
            }
            Some(0)
        },
    }
}

fn body_fors(body: &Vec<Stmt>) -> (r: Option<usize>)
    ensures
        match r {
            Some(n) => block_ok(stmts_view(body@), 0) && n == block_fors(stmts_view(body@), 0),
            None => !block_ok(stmts_view(body@), 0) || block_fors(stmts_view(body@), 0) > usize::MAX,
        },
    decreases body, 0nat,
{
    let ghost sv = stmts_view(body@);
    let mut acc: usize = 0;
    let mut i: usize = 0;
    while i < body.len()
        invariant
            i <= body@.len(),
            sv == stmts_view(body@),
            block_ok(sv, 0) == block_ok(sv, i as int),
            block_fors(sv, 0) == acc + block_fors(sv, i as int),
        decreases body.len() - i,
    {
        let n = stmt_fors(&body[i])?;
        acc = acc.checked_add(n)?;
        i += 1;
    }
    Some(acc)
}

fn arms_fors_exec(arms: &Vec<(Expr, Vec<Stmt>)>) -> (r: Option<usize>)
    ensures
        match r {
            Some(n) => arms_ok(arms_view(arms@), 0) && n == arms_fors(arms_view(arms@), 0),
            None => !arms_ok(arms_view(arms@), 0) || arms_fors(arms_view(arms@), 0) > usize::MAX,
        },
    decreases arms, 0nat,
{
    let ghost av = arms_view(arms@);
    let mut acc: usize = 0;
    let mut i: usize = 0;
    while i < arms.len()
        invariant
            i <= arms@.len(),
            av == arms_view(arms@),
            arms_ok(av, 0) == arms_ok(av, i as int),
            arms_fors(av, 0) == acc + arms_fors(av, i as int),
        decreases arms.len() - i,
    {
        proof {
            lemma_arm_block(arms@, i as int);
        }
        let n = body_fors(&arms[i].1)?;
        acc = acc.checked_add(n)?;
        i += 1;
    }
    Some(acc)
}

/// Generating `stmts` from step number `step_num` is possible: every
/// compound assignment has a compound operator and the step numbers stay
/// within `usize`. This is the condition `generate` needs.
pub fn generation_fits(stmts: &[Stmt], step_num: usize) -> (r: bool)
    ensures
        r == (block_ok(stmts_view(stmts@), 0) && step_num + block_fors(stmts_view(stmts@), 0) <= usize::MAX),
{
    let ghost sv = stmts_view(stmts@);
    let mut acc: usize = step_num;
    let mut i: usize = 0;
    while i < stmts.len()
        invariant
            i <= stmts@.len(),
            sv == stmts_view(stmts@),
            block_ok(sv, 0) == block_ok(sv, i as int),
            step_num + block_fors(sv, 0) == acc + block_fors(sv, i as int),
        decreases stmts.len() - i,
    {
        match stmt_fors(&stmts[i]) {
            Some(n) => match acc.checked_add(n) {
                Some(a) => {
                    acc = a;
                },
                None => {
                    return false;
                },
            },
            None => {
                return false;
            },
        }
        i += 1;
    }
    true
}

// ---------------------------------------------------------------------
// Step numbers
// ---------------------------------------------------------------------

/// After `a`, the state `b`: functions are only added after those of `a`.
pub open spec fn functions_grow(a: CgState, b: CgState) -> bool {
    a.functions.is_prefix_of(b.functions)
}

proof fn lemma_grow_trans(a: CgState, b: CgState, c: CgState)
    requires
        functions_grow(a, b),
        functions_grow(b, c),
    ensures
        functions_grow(a, c),
{
    assert(a.functions =~= c.functions.subrange(0, a.functions.len() as int)) by {
        assert(c.functions.subrange(0, a.functions.len() as int) =~= c.functions.subrange(
            0,
            b.functions.len() as int,
        ).subrange(0, a.functions.len() as int));
    }
}

/// Generating a statement advances the step number by exactly the number
/// of `for` loops in it (nested ones included), and only adds functions.
/// Statements generated one after another therefore take consecutive,
/// disjoint ranges of step numbers.
pub proof fn law_step_count(cg: CgState, s: StmtV)
    ensures
        gen_stmt_spec(cg, s).1.step_num == cg.step_num + fors_in(s),
        functions_grow(cg, gen_stmt_spec(cg, s).1),
    decreases s, 2nat,
{
    match s {
        StmtV::Loop { body } => {
            lemma_block_steps(cg, body, 0, Seq::empty());
        },
        StmtV::WhileLoop { cond, body } => {
            lemma_block_steps(cg, body, 0, Seq::empty());
        },
        StmtV::FuncDecl { .. } => {
            lemma_func_steps(cg, s);
        },
        StmtV::ForLoop { .. } => {
            law_for_takes_fresh_step(cg, s);
        },
        StmtV::WhenStatement { .. } => {
            lemma_when_steps(cg, s);
        },
        StmtV::IfStatement { .. } => {
            lemma_if_steps(cg, s);
        },
        _ => {
            assert(cg.functions.is_prefix_of(cg.functions)) by {
                assert(cg.functions =~= cg.functions.subrange(0, cg.functions.len() as int));
            }
        },
    }
}

/// Generating a statement never lowers the step number, so every `for`
/// loop of a file gets a step variable of its own.
pub proof fn law_step_numbers_never_decrease(cg: CgState, s: StmtV)
    ensures
        cg.step_num <= gen_stmt_spec(cg, s).1.step_num,
{
    law_step_count(cg, s);
}

/// A `for` loop takes the step number reached after its body, which is the
/// number before it plus the `for` loops of its body (they took those in
/// between), and leaves the next one: its own step variable is not one of
/// its body's.
pub proof fn law_for_takes_fresh_step(cg: CgState, s: StmtV)
    requires
        s is ForLoop,
    ensures
        ({
            let body = s->ForLoop_body;
            let after_body = block_text_spec(cg, body, 0, Seq::empty()).1;
            &&& after_body.step_num == cg.step_num + block_fors(body, 0)
            &&& after_body.step_num == cg.step_num + fors_in(s) - 1
            &&& gen_stmt_spec(cg, s).1.step_num == after_body.step_num + 1
            &&& functions_grow(cg, gen_stmt_spec(cg, s).1)
        }),
    decreases s, 1nat,
{
    match s {
        StmtV::ForLoop { body, .. } => {
            lemma_block_steps(cg, body, 0, Seq::empty());
        },
        _ => {},
    }
}

proof fn lemma_func_steps(cg: CgState, s: StmtV)
    requires
        s is FuncDecl,
    ensures
        gen_stmt_spec(cg, s).1.step_num == cg.step_num + fors_in(s),
        functions_grow(cg, gen_stmt_spec(cg, s).1),
    decreases s, 1nat,
{
    match s {
        StmtV::FuncDecl { name, params, return_type, body } => {
            let inner = CgState { symbols: params_symbols(params), ..cg };
            lemma_framed_steps(inner, body, 0, "    "@, "\n"@, Seq::empty());
            let cg1 = framed_spec(inner, body, 0, "    "@, "\n"@, Seq::empty()).1;
            let ret = match return_type {
                Some(t) => t,
                None => Type::Void,
            };
            assert(cg.functions =~= cg1.functions.push((name, ret)).subrange(0, cg.functions.len() as int)) by {
                assert(cg1.functions.push((name, ret)).subrange(0, cg.functions.len() as int)
                    =~= cg1.functions.subrange(0, cg.functions.len() as int));
            }
        },
        _ => {},
    }
}

proof fn lemma_when_steps(cg: CgState, s: StmtV)
    requires
        s is WhenStatement,
    ensures
        gen_stmt_spec(cg, s).1.step_num == cg.step_num + fors_in(s),
        functions_grow(cg, gen_stmt_spec(cg, s).1),
    decreases s, 1nat,
{
    match s {
        StmtV::WhenStatement { condition, arms, else_arm } => {
            let head = "switch("@ + gen_expr_spec(condition) + "){\n"@;
            lemma_arms_steps(cg, arms, 0, head);
            let (t1, cg1) = arms_text_spec(cg, arms, 0, head);
            match else_arm {
                Some(b) => {
                    lemma_framed_steps(cg1, b, 0, "        "@, ";\n"@, t1 + "    default:\n"@);
                    let cg2 = framed_spec(cg1, b, 0, "        "@, ";\n"@, t1 + "    default:\n"@).1;
                    lemma_grow_trans(cg, cg1, cg2);
                },
                None => {},
            }
        },
        _ => {},
    }
}

proof fn lemma_if_steps(cg: CgState, s: StmtV)
    requires
        s is IfStatement,
    ensures
        gen_stmt_spec(cg, s).1.step_num == cg.step_num + fors_in(s),
        functions_grow(cg, gen_stmt_spec(cg, s).1),
    decreases s, 1nat,
{
    match s {
        StmtV::IfStatement { condition, then_branch, else_branch } => {
            let head = "if("@ + gen_expr_spec(condition) + "){\n"@;
            lemma_framed_steps(cg, then_branch, 0, "       "@, "\n"@, head);
            let (t1, cg1) = framed_spec(cg, then_branch, 0, "       "@, "\n"@, head);
            match else_branch {
                Some(b) => {
                    if b.len() == 1 && b[0] is IfStatement {
                        law_step_count(cg1, b[0]);
                        assert(block_fors(b, 0) == fors_in(b[0]) + block_fors(b, 1));
                        lemma_grow_trans(cg, cg1, gen_stmt_spec(cg1, b[0]).1);
                    } else {
                        let pre = t1 + "    }"@ + "else {\n"@;
                        lemma_framed_steps(cg1, b, 0, "       "@, "\n"@, pre);
                        lemma_grow_trans(cg, cg1, framed_spec(cg1, b, 0, "       "@, "\n"@, pre).1);
                    }
                },
                None => {},
            }
        },
        _ => {},
    }
}

proof fn lemma_block_steps(cg: CgState, ss: Seq<StmtV>, i: int, acc: Seq<char>)
    requires
        0 <= i,
    ensures
        block_text_spec(cg, ss, i, acc).1.step_num == cg.step_num + block_fors(ss, i),
        functions_grow(cg, block_text_spec(cg, ss, i, acc).1),
    decreases ss, ss.len() - i,
{
    if i < ss.len() {
        law_step_count(cg, ss[i]);
        let (t, cg1) = gen_stmt_spec(cg, ss[i]);
        lemma_block_steps(cg1, ss, i + 1, (acc + t).push('\n'));
        lemma_grow_trans(cg, cg1, block_text_spec(cg1, ss, i + 1, (acc + t).push('\n')).1);
    } else {
        assert(cg.functions =~= cg.functions.subrange(0, cg.functions.len() as int));
    }
}

proof fn lemma_framed_steps(cg: CgState, ss: Seq<StmtV>, i: int, pre: Seq<char>, post: Seq<char>, acc: Seq<char>)
    requires
        0 <= i,
    ensures
        framed_spec(cg, ss, i, pre, post, acc).1.step_num == cg.step_num + block_fors(ss, i),
        functions_grow(cg, framed_spec(cg, ss, i, pre, post, acc).1),
    decreases ss, ss.len() - i,
{
    if i < ss.len() {
        law_step_count(cg, ss[i]);
        let (t, cg1) = gen_stmt_spec(cg, ss[i]);
        lemma_framed_steps(cg1, ss, i + 1, pre, post, acc + pre + t + post);
        lemma_grow_trans(cg, cg1, framed_spec(cg1, ss, i + 1, pre, post, acc + pre + t + post).1);
    } else {
        assert(cg.functions =~= cg.functions.subrange(0, cg.functions.len() as int));
    }
}

proof fn lemma_arms_steps(cg: CgState, arms: Seq<(ExprV, Seq<StmtV>)>, i: int, acc: Seq<char>)
    requires
        0 <= i,
    ensures
        arms_text_spec(cg, arms, i, acc).1.step_num == cg.step_num + arms_fors(arms, i),
        functions_grow(cg, arms_text_spec(cg, arms, i, acc).1),
    decreases arms, arms.len() - i,
{
    if i < arms.len() {
        let head = acc + "    case "@ + gen_expr_spec(arms[i].0) + ":\n"@;
        lemma_framed_steps(cg, arms[i].1, 0, "        "@, ";\n"@, head);
        let (t, cg1) = framed_spec(cg, arms[i].1, 0, "        "@, ";\n"@, head);
        lemma_arms_steps(cg1, arms, i + 1, t + "        break;\n"@);
        lemma_grow_trans(cg, cg1, arms_text_spec(cg1, arms, i + 1, t + "        break;\n"@).1);
    } else {
        assert(cg.functions =~= cg.functions.subrange(0, cg.functions.len() as int));
    }
}

/// A function is written as its signature (return type, name and typed
/// parameters), its body and a closing brace. Generating it leaves the
/// variables outside it as they were, keeps the functions known before
/// (those declared inside it follow them) and records it last, with its
/// return type (`void` where it has none).
pub proof fn law_function_signature_and_scope(cg: CgState, s: StmtV)
    requires
        s is FuncDecl,
    ensures
        ({
            let name = s->FuncDecl_name;
            let params = s->FuncDecl_params;
            let ret = match s->FuncDecl_return_type {
                Some(t) => t,
                None => Type::Void,
            };
            let head = c_type_name(ret) + " "@ + name@ + "("@ + params_text(params, 0, Seq::empty()) + ") {\n"@;
            let (text, after) = gen_stmt_spec(cg, s);
            &&& after.symbols == cg.symbols
            &&& after.functions.len() > 0
            &&& after.functions.last() == (name, ret)
            &&& functions_grow(cg, CgState { functions: after.functions.drop_last(), ..after })
            &&& head.len() < text.len()
            &&& text.subrange(0, head.len() as int) == head
            &&& text.last() == '}'
        }),
{
    match s {
        StmtV::FuncDecl { name, params, return_type, body } => {
            let inner = CgState { symbols: params_symbols(params), ..cg };
            lemma_framed_steps(inner, body, 0, "    "@, "\n"@, Seq::empty());
            let cg1 = framed_spec(inner, body, 0, "    "@, "\n"@, Seq::empty()).1;
            let ret = match return_type {
                Some(t) => t,
                None => Type::Void,
            };
            let after = gen_stmt_spec(cg, s).1;
            assert(after.functions.drop_last() =~= cg1.functions);
            let head = c_type_name(ret) + " "@ + name@ + "("@ + params_text(params, 0, Seq::empty()) + ") {\n"@;
            let text = gen_stmt_spec(cg, s).0;
            let bt = framed_spec(inner, body, 0, "    "@, "\n"@, Seq::empty()).0;
            let bt2 = if name@ == "main"@ && return_type == Some(Type::Int) && !has_return(body) {
                bt + "    return 0;\n"@
            } else {
                bt
            };
            assert(text == head + bt2 + "}"@);
            assert(text.subrange(0, head.len() as int) =~= head);
            reveal_strlit("}");
            assert(text.last() == (head + bt2 + "}"@)[(head.len() + bt2.len()) as int]);
        },
        _ => {},
    }
}

/// A 128-bit literal is written as its two 64-bit halves: the high half
/// `h` (the value divided by 2^64, rounded down) shifted left by 64, or-ed
/// with the low half `l`, written as an unsigned 64-bit number; `h` fits in
/// 64 signed bits and `h * 2^64 + l` is the value again.
pub proof fn law_wide_literal_halves(v: i128)
    ensures
        ({
            let h = (v as int) / two64();
            let l = (v as int) % two64();
            &&& 0 <= l < two64()
            &&& -0x8000_0000_0000_0000 <= h < 0x8000_0000_0000_0000
            &&& h * two64() + l == v
            &&& gen_expr_spec(ExprV::I128Literal(v)) == "((__int128)"@ + decimal_int(h) + " << 64 | (__int128)"@
                + decimal_int(l) + "ULL)"@
        }),
{
    lemma_split_i128(v as int);
}

/// What a C binary operator, by its spelling, computes on two integers:
/// `/` and `%` round toward zero (no value for a zero divisor), and the
/// comparisons give 1 or 0. Any other text is no C operator and has no
/// value.
pub open spec fn c_operator_value(sym: Seq<char>, a: int, b: int) -> Option<int> {
    if sym == "+"@ {
        Some(a + b)
    } else if sym == "-"@ {
        Some(a - b)
    } else if sym == "*"@ {
        Some(a * b)
    } else if sym == "/"@ {
        if b == 0 { None } else { Some(trunc_div(a, b)) }
    } else if sym == "%"@ {
        if b == 0 { None } else { Some(trunc_rem(a, b)) }
    } else if sym == "=="@ {
        Some(truth(a == b))
    } else if sym == "!="@ {
        Some(truth(a != b))
    } else if sym == "<"@ {
        Some(truth(a < b))
    } else if sym == "<="@ {
        Some(truth(a <= b))
    } else if sym == ">"@ {
        Some(truth(a > b))
    } else if sym == ">="@ {
        Some(truth(a >= b))
    } else {
        None
    }
}

/// The C operator written between the two operands of a binary operation
/// computes what the source operator means, for all integer operands: C
/// code for `a op b` has the value of `a op b`. (`!=` is left out: it is
/// written as `unknown`, which is no C operator; the compound operators
/// are never written here and have no value on either side.)
pub proof fn law_operator_written_faithfully(op: BinOp, a: int, b: int)
    requires
        op != BinOp::NotEqual,
    ensures
        c_operator_value(op_text(op), a, b) == binop_value(op, a, b),
        forall|l: ExprV, r: ExprV|
            #[trigger] gen_expr_spec(ExprV::BinaryOp { left: Box::new(l), op, right: Box::new(r) })
                == gen_expr_spec(l) + " "@ + op_text(op) + " "@ + gen_expr_spec(r),
{
    lemma_operator_spellings();
}

/// The characters of the C operator spellings, so that they can be told
/// apart.
pub(crate) proof fn lemma_operator_spellings()
    ensures
        "+"@.len() == 1 && "+"@[0] == '+',
        "-"@.len() == 1 && "-"@[0] == '-',
        "*"@.len() == 1 && "*"@[0] == '*',
        "/"@.len() == 1 && "/"@[0] == '/',
        "%"@.len() == 1 && "%"@[0] == '%',
        "=="@.len() == 2 && "=="@[0] == '=' && "=="@[1] == '=',
        "!="@.len() == 2 && "!="@[0] == '!' && "!="@[1] == '=',
        "<"@.len() == 1 && "<"@[0] == '<',
        "<="@.len() == 2 && "<="@[0] == '<' && "<="@[1] == '=',
        ">"@.len() == 1 && ">"@[0] == '>',
        ">="@.len() == 2 && ">="@[0] == '>' && ">="@[1] == '=',
        "unknown"@.len() == 7 && "unknown"@[0] == 'u',
{
    reveal_strlit("+");
    reveal_strlit("-");
    reveal_strlit("*");
    reveal_strlit("/");
    reveal_strlit("%");
    reveal_strlit("==");
    reveal_strlit("!=");
    reveal_strlit("<");
    reveal_strlit("<=");
    reveal_strlit(">");
    reveal_strlit(">=");
    reveal_strlit("unknown");
}

/// A file without statements is the header alone.
pub proof fn law_generate_empty(cg: CgState)
    ensures
        generate_spec(cg, Seq::empty()).0 == header_text(),
        generate_spec(cg, Seq::empty()).1 == cg,
{
}

} // verus!
