//! C source generation from the intermediate form: each function becomes a
//! C function with its variables and temporaries declared at the top and
//! its blocks as labels.
use vstd::prelude::*;
use crate::compiler::ir::{blocks_view, instr_value, instrs_view, BlockV, FunctionV, IRProgram, Instr, InstrV, Label, Temp};
use crate::compiler::parser::Type;
use crate::compiler::codegen::{c_operator_value, lemma_operator_spellings};
use crate::compiler::text::{chars_eq_str, chars_of, decimal, decimal_int, push_i128, push_str, push_u128};

verus! {

pub struct CodegenLLC;

/// The C type of a variable.
pub open spec fn var_type_text(t: Type) -> Seq<char> {
    match t {
        Type::Int => "int64_t"@,
        Type::Bool => "bool"@,
        Type::UInt => "uint64_t"@,
        Type::I8 => "int8_t"@,
        Type::I16 => "int16_t"@,
        Type::I32 => "int32_t"@,
        Type::I64 => "int64_t"@,
        Type::I128 => "__int128"@,
        Type::U8 => "uint8_t"@,
        Type::U16 => "uint16_t"@,
        Type::U32 => "uint32_t"@,
        Type::U64 => "uint64_t"@,
        Type::U128 => "unsigned __int128"@,
        Type::Vec { .. } => "brh"@,
        Type::Void => "void"@,
        Type::Str => "char*"@,
        Type::Unknown => "n"@,
    }
}

/// The C type of a temporary: as for a variable, but `int` for `Int`.
pub open spec fn temp_type_text(t: Type) -> Seq<char> {
    if t == Type::Int { "int"@ } else { var_type_text(t) }
}

/// The `printf` format for a temporary of a type (`%bool` asks for
/// `true`/`false`).
pub open spec fn print_format(t: Type) -> Seq<char> {
    match t {
        Type::Int => "%d\\n"@,
        Type::I64 => "\"%\" PRId64 \"\\n\""@,
        Type::I32 => "\"%\" PRId32 \"\\n\""@,
        Type::I16 => "\"%\" PRId16 \"\\n\""@,
        Type::I8 => "\"%\" PRId8 \"\\n\""@,
        Type::UInt => "\"%\" PRIu64 \"\\n\""@,
        Type::U64 => "\"%\" PRIu64 \"\\n\""@,
        Type::U32 => "\"%\" PRIu32 \"\\n\""@,
        Type::U16 => "\"%\" PRIu16 \"\\n\""@,
        Type::U8 => "\"%\" PRIu8 \"\\n\""@,
        Type::Str => "%s\\n"@,
        Type::Bool => "%bool"@,
        _ => "%ld\\n"@,
    }
}

pub open spec fn dec(n: usize) -> Seq<char> {
    decimal(n as nat)
}

pub open spec fn bool_word(b: bool) -> Seq<char> {
    if b { "true"@ } else { "false"@ }
}

/// The line of C for an instruction (nothing for those not written out:
/// `Sub`, `Mul`, `Div`, `Eq`, `Call`).
pub open spec fn instr_text(i: InstrV) -> Seq<char> {
    match i {
        InstrV::ConstInt { dst, value } => "    t"@ + dec(dst.id) + " = "@ + decimal_int(value as int) + ";\n"@,
        InstrV::ConstBool { dst, value } => "    t"@ + dec(dst.id) + " = "@ + bool_word(value) + ";\n"@,
        InstrV::Store { var, src } => "    v"@ + dec(var.0) + " = t"@ + dec(src.id) + ";\n"@,
        InstrV::Add { dst, lhs, rhs } => "    t"@ + dec(dst.id) + " = t"@ + dec(lhs.id) + " + t"@ + dec(rhs.id) + ";\n"@,
        InstrV::Greater { dst, lhs, rhs } => "    t"@ + dec(dst.id) + " = t"@ + dec(lhs.id) + " > t"@ + dec(rhs.id)
            + ";\n"@,
        InstrV::GreaterEq { dst, lhs, rhs } => "    t"@ + dec(dst.id) + " = t"@ + dec(lhs.id) + " >= t"@ + dec(
            rhs.id,
        ) + ";\n"@,
        InstrV::Less { dst, lhs, rhs } => "    t"@ + dec(dst.id) + " = t"@ + dec(lhs.id) + " < t"@ + dec(rhs.id)
            + ";\n"@,
        InstrV::LessEq { dst, lhs, rhs } => "    t"@ + dec(dst.id) + " = t"@ + dec(lhs.id) + " <= t"@ + dec(rhs.id)
            + ";\n"@,
        InstrV::Load { dst, id } => "    t"@ + dec(dst.id) + " = v"@ + dec(id.0) + ";\n"@,
        InstrV::Print { temp } => if print_format(temp.ty) == "%bool"@ {
            "    printf(\"%s\\n\", (t"@ + dec(temp.id) + ") ? \"true\" : \"false\");\n"@
        } else {
            "    printf(\""@ + print_format(temp.ty) + "\", t"@ + dec(temp.id) + ");\n"@
        },
        InstrV::Jump(label) => "    goto L"@ + dec(label.0) + ";\n"@,
        InstrV::JumpIfFalse { cond, label } => "    if (!t"@ + dec(cond.id) + ") goto L"@ + dec(label.0) + ";\n"@,
        InstrV::Return(Some(t)) => "    return t"@ + dec(t.id) + ";\n"@,
        InstrV::Return(None) => "    return 0;\n"@,
        _ => Seq::empty(),
    }
}

/// The lines of the first `k` instructions.
pub open spec fn instrs_text(is: Seq<InstrV>, k: int) -> Seq<char>
    decreases k,
{
    if k <= 0 || k > is.len() {
        Seq::empty()
    } else {
        instrs_text(is, k - 1) + instr_text(is[k - 1])
    }
}

/// A block: its label, then its instructions.
pub open spec fn block_text(b: BlockV) -> Seq<char> {
    "L"@ + dec(b.label.0) + ":\n"@ + instrs_text(b.instructions, b.instructions.len() as int)
}

/// The first `k` blocks.
pub open spec fn blocks_text(bs: Seq<BlockV>, k: int) -> Seq<char>
    decreases k,
{
    if k <= 0 || k > bs.len() {
        Seq::empty()
    } else {
        blocks_text(bs, k - 1) + block_text(bs[k - 1])
    }
}

/// `s` with `x` added at the end unless it holds it already.
pub open spec fn add_unique(s: Seq<(usize, Type)>, x: (usize, Type)) -> Seq<(usize, Type)> {
    if s.contains(x) { s } else { s.push(x) }
}

/// The temporary an instruction defines, with its type, for the kinds
/// declared at the top of a function.
pub open spec fn temp_def(i: InstrV) -> Option<(usize, Type)> {
    match i {
        InstrV::ConstInt { dst, .. } => Some((dst.id, dst.ty)),
        InstrV::ConstBool { dst, .. } => Some((dst.id, dst.ty)),
        InstrV::Add { dst, .. } => Some((dst.id, dst.ty)),
        InstrV::Greater { dst, .. } => Some((dst.id, dst.ty)),
        InstrV::GreaterEq { dst, .. } => Some((dst.id, dst.ty)),
        InstrV::Less { dst, .. } => Some((dst.id, dst.ty)),
        InstrV::LessEq { dst, .. } => Some((dst.id, dst.ty)),
        InstrV::Load { dst, .. } => Some((dst.id, dst.ty)),
        _ => None,
    }
}

/// The variable a `Store` writes, with the type of the value stored.
pub open spec fn var_def(i: InstrV) -> Option<(usize, Type)> {
    match i {
        InstrV::Store { var, src } => Some((var.0, src.ty)),
        _ => None,
    }
}

/// `acc` with the definitions (chosen by `temps`) of the first `k`
/// instructions added, each distinct pair once, in order of first
/// appearance.
pub open spec fn block_defs(is: Seq<InstrV>, k: int, temps: bool, acc: Seq<(usize, Type)>) -> Seq<(usize, Type)>
    decreases k,
{
    if k <= 0 || k > is.len() {
        acc
    } else {
        let prev = block_defs(is, k - 1, temps, acc);
        match if temps { temp_def(is[k - 1]) } else { var_def(is[k - 1]) } {
            Some(x) => add_unique(prev, x),
            None => prev,
        }
    }
}

/// The distinct definitions in the first `b` blocks, in order of first
/// appearance.
pub open spec fn all_defs(bs: Seq<BlockV>, b: int, temps: bool) -> Seq<(usize, Type)>
    decreases b,
{
    if b <= 0 || b > bs.len() {
        Seq::empty()
    } else {
        block_defs(bs[b - 1].instructions, bs[b - 1].instructions.len() as int, temps, all_defs(bs, b - 1, temps))
    }
}

/// The declaration lines of the first `k` entries.
pub open spec fn decls_text(ds: Seq<(usize, Type)>, k: int, temps: bool) -> Seq<char>
    decreases k,
{
    if k <= 0 || k > ds.len() {
        Seq::empty()
    } else if temps {
        decls_text(ds, k - 1, temps) + ("    "@ + temp_type_text(ds[k - 1].1) + " t"@ + dec(ds[k - 1].0) + ";\n"@)
    } else {
        decls_text(ds, k - 1, temps) + ("    "@ + var_type_text(ds[k - 1].1) + " v"@ + dec(ds[k - 1].0) + ";\n"@)
    }
}

/// A C function: `main` returns `int`, any other `void`; variables, then
/// temporaries, are declared first (each once, in order of first
/// appearance), then a blank line and the blocks.
pub open spec fn function_text(f: FunctionV) -> Seq<char> {
    let vars = all_defs(f.blocks, f.blocks.len() as int, false);
    let temps = all_defs(f.blocks, f.blocks.len() as int, true);
    let head = if f.name@ == "main"@ { "int main() {\n"@ } else { "void "@ + f.name@ + "() {\n"@ };
    head + decls_text(vars, vars.len() as int, false) + decls_text(temps, temps.len() as int, true) + "\n"@
        + blocks_text(f.blocks, f.blocks.len() as int) + "}\n\n"@
}

/// The first `k` functions.
pub open spec fn functions_text(fs: Seq<FunctionV>, k: int) -> Seq<char>
    decreases k,
{
    if k <= 0 || k > fs.len() {
        Seq::empty()
    } else {
        functions_text(fs, k - 1) + function_text(fs[k - 1])
    }
}

pub open spec fn llc_header() -> Seq<char> {
    "#include <stdio.h>\n#include <stdbool.h>\n#include <stdint.h>\n\n"@
        + "void print_i128(__int128 n) {\n    if(n==0){printf(\"0\"); return;}\n    if(n<0){printf(\"-\"); n=-n;}\n    char str[40];\n    int i=0;\n    while(n>0){str[i++]=(n%10)+'0'; n/=10;}\n    while(i--) putchar(str[i]);\n    putchar('\\n');\n}\n\n"@
}

/// The whole C file for a program.
pub open spec fn llc_spec(fs: Seq<FunctionV>) -> Seq<char> {
    llc_header() + functions_text(fs, fs.len() as int)
}

// ---------------------------------------------------------------------
// Generation
// ---------------------------------------------------------------------

fn push_id(out: &mut String, n: usize)
    ensures
        final(out)@ == old(out)@ + dec(n),
{
    push_u128(out, n as u128);
}

fn var_type_str(t: &Type) -> (r: &'static str)
    ensures
        r@ == var_type_text(*t),
{
    match t {
        Type::Int => "int64_t",
        Type::Bool => "bool",
        Type::UInt => "uint64_t",
        Type::I8 => "int8_t",
        Type::I16 => "int16_t",
        Type::I32 => "int32_t",
        Type::I64 => "int64_t",
        Type::I128 => "__int128",
        Type::U8 => "uint8_t",
        Type::U16 => "uint16_t",
        Type::U32 => "uint32_t",
        Type::U64 => "uint64_t",
        Type::U128 => "unsigned __int128",
        Type::Vec { .. } => "brh",
        Type::Void => "void",
        Type::Str => "char*",
        Type::Unknown => "n",
    }
}

fn temp_type_str(t: &Type) -> (r: &'static str)
    ensures
        r@ == temp_type_text(*t),
{
    match t {
        Type::Int => "int",
        _ => var_type_str(t),
    }
}

fn print_format_str(t: &Type) -> (r: &'static str)
    ensures
        r@ == print_format(*t),
{
    match t {
        Type::Int => "%d\\n",
        Type::I64 => "\"%\" PRId64 \"\\n\"",
        Type::I32 => "\"%\" PRId32 \"\\n\"",
        Type::I16 => "\"%\" PRId16 \"\\n\"",
        Type::I8 => "\"%\" PRId8 \"\\n\"",
        Type::UInt => "\"%\" PRIu64 \"\\n\"",
        Type::U64 => "\"%\" PRIu64 \"\\n\"",
        Type::U32 => "\"%\" PRIu32 \"\\n\"",
        Type::U16 => "\"%\" PRIu16 \"\\n\"",
        Type::U8 => "\"%\" PRIu8 \"\\n\"",
        Type::Str => "%s\\n",
        Type::Bool => "%bool",
        _ => "%ld\\n",
    }
}

/// `t = l op r;` for a binary instruction.
fn push_binary(out: &mut String, dst: &Temp, lhs: &Temp, op: &str, rhs: &Temp)
    ensures
        final(out)@ == old(out)@ + ("    t"@ + dec(dst.id) + " = t"@ + dec(lhs.id) + op@ + dec(rhs.id) + ";\n"@),
{
    push_str(out, "    t");
    push_id(out, dst.id);
    push_str(out, " = t");
    push_id(out, lhs.id);
    push_str(out, op);
    push_id(out, rhs.id);
    push_str(out, ";\n");
    assert(final(out)@ =~= old(out)@ + ("    t"@ + dec(dst.id) + " = t"@ + dec(lhs.id) + op@ + dec(rhs.id)
        + ";\n"@));
}

/// Appends the line of C for an instruction.
fn push_instr(out: &mut String, instr: &Instr)
    ensures
        final(out)@ == old(out)@ + instr_text(instr.view()),
{
    match instr {
        Instr::ConstInt { dst, value } => {
            push_str(out, "    t");
            push_id(out, dst.id);
            push_str(out, " = ");
            push_i128(out, *value);
            push_str(out, ";\n");
            assert(out@ =~= old(out)@ + instr_text(instr.view()));
        },
        Instr::ConstBool { dst, value } => {
            push_str(out, "    t");
            push_id(out, dst.id);
            push_str(out, " = ");
            push_str(out, if *value { "true" } else { "false" });
            push_str(out, ";\n");
            assert(out@ =~= old(out)@ + instr_text(instr.view()));
        },
        Instr::Store { var, src } => {
            push_str(out, "    v");
            push_id(out, var.0);
            push_str(out, " = t");
            push_id(out, src.id);
            push_str(out, ";\n");
            assert(out@ =~= old(out)@ + instr_text(instr.view()));
        },
        Instr::Add { dst, lhs, rhs } => {
            push_binary(out, dst, lhs, " + t", rhs);
        },
        Instr::Greater { dst, lhs, rhs } => {
            push_binary(out, dst, lhs, " > t", rhs);
        },
        Instr::GreaterEq { dst, lhs, rhs } => {
            push_binary(out, dst, lhs, " >= t", rhs);
        },
        Instr::Less { dst, lhs, rhs } => {
            push_binary(out, dst, lhs, " < t", rhs);
        },
        Instr::LessEq { dst, lhs, rhs } => {
            push_binary(out, dst, lhs, " <= t", rhs);
        },
        Instr::Load { dst, id } => {
            push_str(out, "    t");
            push_id(out, dst.id);
            push_str(out, " = v");
            push_id(out, id.0);
            push_str(out, ";\n");
            assert(out@ =~= old(out)@ + instr_text(instr.view()));
        },
        Instr::Print { temp } => {
            let fmt = print_format_str(&temp.ty);
            let v = chars_of(fmt);
            if chars_eq_str(&v, "%bool") {
                push_str(out, "    printf(\"%s\\n\", (t");
                push_id(out, temp.id);
                push_str(out, ") ? \"true\" : \"false\");\n");
            } else {
                push_str(out, "    printf(\"");
                push_str(out, fmt);
                push_str(out, "\", t");
                push_id(out, temp.id);
                push_str(out, ");\n");
            }
            assert(out@ =~= old(out)@ + instr_text(instr.view()));
        },
        Instr::Jump(label) => {
            push_str(out, "    goto L");
            push_id(out, label.0);
            push_str(out, ";\n");
            assert(out@ =~= old(out)@ + instr_text(instr.view()));
        },
        Instr::JumpIfFalse { cond, label } => {
            push_str(out, "    if (!t");
            push_id(out, cond.id);
            push_str(out, ") goto L");
            push_id(out, label.0);
            push_str(out, ";\n");
            assert(out@ =~= old(out)@ + instr_text(instr.view()));
        },
        Instr::Return(Some(temp)) => {
            push_str(out, "    return t");
            push_id(out, temp.id);
            push_str(out, ";\n");
            assert(out@ =~= old(out)@ + instr_text(instr.view()));
        },
        Instr::Return(None) => {
            push_str(out, "    return 0;\n");
        },
        _ => {
            assert(out@ =~= old(out)@ + instr_text(instr.view()));
        },
    }
}

fn contains_pair(s: &Vec<(usize, Type)>, id: usize, ty: &Type) -> (r: bool)
    ensures
        r == s@.contains((id, *ty)),
{
    let mut i: usize = 0;
    while i < s.len()
        invariant
            i <= s@.len(),
            forall|j: int| 0 <= j < i ==> s@[j] != (id, *ty),
        decreases s.len() - i,
    {
        if s[i].0 == id && s[i].1.same(ty) {
            assert(s@[i as int] == (id, *ty));
            return true;
        }
        i += 1;
    }
    false
}

/// Collects the distinct definitions (temporaries or variables) of a
/// function, in order of first appearance.
fn collect_defs(func: &crate::compiler::ir::FunctionIR, temps: bool) -> (r: Vec<(usize, Type)>)
    ensures
        r@ == all_defs(blocks_view(func.blocks@), func.blocks@.len() as int, temps),
{
    let ghost bs = blocks_view(func.blocks@);
    let mut acc: Vec<(usize, Type)> = Vec::new();
    let mut b: usize = 0;
    while b < func.blocks.len()
        invariant
            b <= func.blocks@.len(),
            bs == blocks_view(func.blocks@),
            acc@ == all_defs(bs, b as int, temps),
        decreases func.blocks.len() - b,
    {
        let block = &func.blocks[b];
        let ghost is = bs[b as int].instructions;
        let ghost start = acc@;
        let mut k: usize = 0;
        while k < block.instructions.len()
            invariant
                k <= block.instructions@.len(),
                is == instrs_view(block.instructions@),
                acc@ == block_defs(is, k as int, temps, start),
            decreases block.instructions.len() - k,
        {
            let def: Option<(usize, Type)> = if temps {
                match &block.instructions[k] {
                    Instr::ConstInt { dst, .. } | Instr::ConstBool { dst, .. } | Instr::Add { dst, .. }
                    | Instr::Greater { dst, .. } | Instr::GreaterEq { dst, .. } | Instr::Less { dst, .. }
                    | Instr::LessEq { dst, .. } | Instr::Load { dst, .. } => Some((dst.id, dst.ty.clone())),
                    _ => None,
                }
            } else {
                match &block.instructions[k] {
                    Instr::Store { var, src } => Some((var.0, src.ty.clone())),
                    _ => None,
                }
            };
            if let Some((id, ty)) = def {
                if !contains_pair(&acc, id, &ty) {
                    acc.push((id, ty));
                }
            }
            k += 1;
        }
        b += 1;
    }
    acc
}

fn push_decls(out: &mut String, ds: &Vec<(usize, Type)>, temps: bool)
    ensures
        final(out)@ == old(out)@ + decls_text(ds@, ds@.len() as int, temps),
{
    let mut i: usize = 0;
    while i < ds.len()
        invariant
            i <= ds@.len(),
            out@ == old(out)@ + decls_text(ds@, i as int, temps),
        decreases ds.len() - i,
    {
        let ghost before = out@;
        push_str(out, "    ");
        if temps {
            push_str(out, temp_type_str(&ds[i].1));
            push_str(out, " t");
        } else {
            push_str(out, var_type_str(&ds[i].1));
            push_str(out, " v");
        }
        push_id(out, ds[i].0);
        push_str(out, ";\n");
        i += 1;
        assert(out@ =~= old(out)@ + decls_text(ds@, i as int, temps));
    }
}

fn push_blocks(out: &mut String, blocks: &Vec<crate::compiler::ir::BasicBlock>)
    ensures
        final(out)@ == old(out)@ + blocks_text(blocks_view(blocks@), blocks@.len() as int),
{
    let ghost bs = blocks_view(blocks@);
    let mut b: usize = 0;
    while b < blocks.len()
        invariant
            b <= blocks@.len(),
            bs == blocks_view(blocks@),
            out@ == old(out)@ + blocks_text(bs, b as int),
        decreases blocks.len() - b,
    {
        let block = &blocks[b];
        let ghost is = bs[b as int].instructions;
        let ghost bstart = out@;
        push_str(out, "L");
        push_id(out, block.label.0);
        push_str(out, ":\n");
        let ghost lstart = out@;
        let mut k: usize = 0;
        while k < block.instructions.len()
            invariant
                k <= block.instructions@.len(),
                is == instrs_view(block.instructions@),
                out@ == lstart + instrs_text(is, k as int),
            decreases block.instructions.len() - k,
        {
            push_instr(out, &block.instructions[k]);
            k += 1;
            assert(out@ =~= lstart + instrs_text(is, k as int));
        }
        b += 1;
        assert(out@ =~= old(out)@ + blocks_text(bs, b as int));
    }
}

fn push_function(out: &mut String, fun: &crate::compiler::ir::FunctionIR)
    ensures
        final(out)@ == old(out)@ + function_text(fun.view()),
{
    let name_chars = chars_of(fun.name.as_str());
    if chars_eq_str(&name_chars, "main") {
        push_str(out, "int main() {\n");
    } else {
        push_str(out, "void ");
        push_str(out, fun.name.as_str());
        push_str(out, "() {\n");
    }
    let declared_vars = collect_defs(fun, false);
    let declared_temps = collect_defs(fun, true);
    push_decls(out, &declared_vars, false);
    push_decls(out, &declared_temps, true);
    push_str(out, "\n");
    push_blocks(out, &fun.blocks);
    push_str(out, "}\n\n");
    assert(out@ =~= old(out)@ + function_text(fun.view()));
}

impl CodegenLLC {
    pub fn new() -> (r: Self) {
        CodegenLLC
    }

    /// The C file for a program: a header, then each function.
    pub fn generate(&self, ir: &IRProgram) -> (r: String)
        ensures
            r@ == llc_spec(ir@),
    {
        let mut c = String::new();
        push_str(&mut c, "#include <stdio.h>\n#include <stdbool.h>\n#include <stdint.h>\n\n");
        push_str(
            &mut c,
            "void print_i128(__int128 n) {\n    if(n==0){printf(\"0\"); return;}\n    if(n<0){printf(\"-\"); n=-n;}\n    char str[40];\n    int i=0;\n    while(n>0){str[i++]=(n%10)+'0'; n/=10;}\n    while(i--) putchar(str[i]);\n    putchar('\\n');\n}\n\n",
        );
        assert(c@ =~= llc_header());
        let mut fi: usize = 0;
        while fi < ir.functions.len()
            invariant
                fi <= ir.functions@.len(),
                c@ == llc_header() + functions_text(ir@, fi as int),
            decreases ir.functions.len() - fi,
        {
            push_function(&mut c, &ir.functions[fi]);
            fi += 1;
            assert(c@ =~= llc_header() + functions_text(ir@, fi as int));
        }
        c
    }
}

/// The name under which a temporary is declared and used in the C code.
pub open spec fn temp_name(id: usize) -> Seq<char> {
    "t"@ + dec(id)
}

/// A conditional jump goes to its label exactly when its condition is
/// false: its line tests the negation (`!`) of the temporary holding the
/// condition, under the name that temporary is declared with, and then
/// does what the unconditional jump to the same label does. That jump
/// names the label under which the code of the target block starts.
pub proof fn law_conditional_jump_on_false(cond: Temp, label: Label, is: Seq<InstrV>, ty: Type)
    ensures
        ({
            let goto = instr_text(InstrV::Jump(label));
            let target = block_text(BlockV { label, instructions: is });
            let name_len: int = (1 + dec(label.0).len()) as int;
            &&& goto.len() > 4
            &&& goto.subrange(0, 4) == "    "@
            &&& instr_text(InstrV::JumpIfFalse { cond, label }) == "    if (!"@ + temp_name(cond.id) + ") "@
                + goto.subrange(4, goto.len() as int)
            &&& target.subrange(name_len, name_len + 2) == ":\n"@
            &&& goto == "    goto "@ + target.subrange(0, name_len) + ";\n"@
            &&& decls_text(seq![(cond.id, ty)], 1, true) == decls_text(seq![(cond.id, ty)], 0, true) + "    "@
                + temp_type_text(ty) + " "@ + temp_name(cond.id) + ";\n"@
        }),
{
    let goto = instr_text(InstrV::Jump(label));
    let target = block_text(BlockV { label, instructions: is });
    let lname = "L"@ + dec(label.0);
    reveal_strlit("    goto L");
    reveal_strlit("    goto ");
    reveal_strlit("    ");
    reveal_strlit("L");
    reveal_strlit(";\n");
    reveal_strlit(":\n");
    reveal_strlit("    if (!t");
    reveal_strlit("    if (!");
    reveal_strlit(") goto L");
    reveal_strlit(") ");
    reveal_strlit("t");
    reveal_strlit(" t");
    reveal_strlit(" ");
    assert(goto =~= "    goto "@ + lname + ";\n"@);
    assert(goto.subrange(0, 4) =~= "    "@);
    assert(instr_text(InstrV::JumpIfFalse { cond, label }) =~= "    if (!"@ + temp_name(cond.id) + ") "@
        + goto.subrange(4, goto.len() as int));
    assert(target.subrange(0, lname.len() as int) =~= lname);
    assert(target.subrange(lname.len() as int, lname.len() + 2 as int) =~= ":\n"@);
    assert(decls_text(seq![(cond.id, ty)], 1, true) =~= decls_text(seq![(cond.id, ty)], 0, true) + "    "@
        + temp_type_text(ty) + " "@ + temp_name(cond.id) + ";\n"@);
}

/// The destination and the two operands of an instruction that combines
/// two temporaries.
pub open spec fn binary_parts(i: InstrV) -> Option<(Temp, Temp, Temp)> {
    match i {
        InstrV::Add { dst, lhs, rhs } | InstrV::Sub { dst, lhs, rhs } | InstrV::Mul { dst, lhs, rhs } | InstrV::Div {
            dst,
            lhs,
            rhs,
        } | InstrV::Eq { dst, lhs, rhs } | InstrV::Greater { dst, lhs, rhs } | InstrV::Less { dst, lhs, rhs }
        | InstrV::GreaterEq { dst, lhs, rhs } | InstrV::LessEq { dst, lhs, rhs } => Some((dst, lhs, rhs)),
        _ => None,
    }
}

/// The line written for an addition or an ordered comparison assigns to
/// the destination's name the left operand's name, a C operator and the
/// right operand's name, and that C operator computes what the instruction
/// computes, whatever values the temporaries hold.
#[verifier::spinoff_prover]
#[verifier::rlimit(40)]
pub proof fn law_binary_line_computes_value(i: InstrV, env: spec_fn(usize) -> int)
    requires
        i is Add || i is Greater || i is GreaterEq || i is Less || i is LessEq,
    ensures
        ({
            let (dst, lhs, rhs) = binary_parts(i)->0;
            let text = instr_text(i);
            let pre = "    "@ + temp_name(dst.id) + " = "@ + temp_name(lhs.id) + " "@;
            let post = " "@ + temp_name(rhs.id) + ";\n"@;
            &&& pre.len() + post.len() < text.len()
            &&& text.subrange(0, pre.len() as int) == pre
            &&& text.subrange(text.len() - post.len(), text.len() as int) == post
            &&& c_operator_value(
                text.subrange(pre.len() as int, text.len() - post.len()),
                env(lhs.id),
                env(rhs.id),
            ) == instr_value(i, env)
        }),
{
    lemma_operator_spellings();
    reveal_strlit("    t");
    reveal_strlit("    ");
    reveal_strlit(" = t");
    reveal_strlit(" = ");
    reveal_strlit("t");
    reveal_strlit(" ");
    reveal_strlit(";\n");
    reveal_strlit(" + t");
    reveal_strlit(" > t");
    reveal_strlit(" >= t");
    reveal_strlit(" < t");
    reveal_strlit(" <= t");
    let (dst, lhs, rhs) = binary_parts(i)->0;
    let text = instr_text(i);
    let pre = "    "@ + temp_name(dst.id) + " = "@ + temp_name(lhs.id) + " "@;
    let post = " "@ + temp_name(rhs.id) + ";\n"@;
    let sym = if i is Add {
        "+"@
    } else if i is Greater {
        ">"@
    } else if i is GreaterEq {
        ">="@
    } else if i is Less {
        "<"@
    } else {
        "<="@
    };
    assert(text =~= pre + sym + post);
    lemma_line_parts(text, pre, sym, post);
}

proof fn lemma_line_parts(text: Seq<char>, pre: Seq<char>, sym: Seq<char>, post: Seq<char>)
    requires
        text == pre + sym + post,
    ensures
        text.subrange(0, pre.len() as int) == pre,
        text.subrange(text.len() - post.len(), text.len() as int) == post,
        text.subrange(pre.len() as int, text.len() - post.len()) == sym,
{
    assert(text.subrange(0, pre.len() as int) =~= pre);
    assert(text.subrange(text.len() - post.len(), text.len() as int) =~= post);
    assert(text.subrange(pre.len() as int, text.len() - post.len()) =~= sym);
}

} // verus!
