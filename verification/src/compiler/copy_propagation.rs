//! Propagation of known values through the instructions of each block:
//! operands are redirected to the temporaries they copy, and comparisons of
//! two known integers become constants.
use std::collections::HashMap;
use vstd::prelude::*;
use crate::compiler::semantic::truth;
use crate::compiler::ir::{
    blocks_view, dest, instr_value, instrs_view, BasicBlock, BlockV, FunctionIR, FunctionV, IRProgram, Instr, InstrV, Temp,
};

verus! {

broadcast use vstd::std_specs::hash::group_hash_axioms;

/// What is known of a temporary or a variable: a constant, or that it holds
/// the value of another temporary.
#[derive(Debug, Clone, Copy, PartialEq, Eq, Structural)]
pub enum Value {
    ConstInt(i128),
    ConstBool(bool),
    Temp(usize),
}

/// A temporary known to copy another is replaced by that one (same type).
pub open spec fn resolve(t: Temp, map: Map<usize, Value>) -> Temp {
    if map.contains_key(t.id) && map[t.id] is Temp {
        Temp { id: map[t.id]->Temp_0, ty: t.ty }
    } else {
        t
    }
}

/// The known integer constant of a temporary, if any.
pub open spec fn known_int(map: Map<usize, Value>, id: usize) -> Option<i128> {
    if map.contains_key(id) && map[id] is ConstInt {
        Some(map[id]->ConstInt_0)
    } else {
        None
    }
}

/// Which comparison an instruction makes.
pub enum Cmp {
    Greater,
    GreaterEq,
    Less,
    LessEq,
}

pub open spec fn compare(c: Cmp, a: i128, b: i128) -> bool {
    match c {
        Cmp::Greater => a > b,
        Cmp::GreaterEq => a >= b,
        Cmp::Less => a < b,
        Cmp::LessEq => a <= b,
    }
}

pub open spec fn cmp_instr(c: Cmp, dst: Temp, lhs: Temp, rhs: Temp) -> InstrV {
    match c {
        Cmp::Greater => InstrV::Greater { dst, lhs, rhs },
        Cmp::GreaterEq => InstrV::GreaterEq { dst, lhs, rhs },
        Cmp::Less => InstrV::Less { dst, lhs, rhs },
        Cmp::LessEq => InstrV::LessEq { dst, lhs, rhs },
    }
}

/// A comparison: its operands are resolved; with both known integers it
/// becomes a boolean constant (which is then known); otherwise its
/// destination is no longer known.
pub open spec fn cmp_step(
    c: Cmp,
    map: Map<usize, Value>,
    vars: Map<usize, Value>,
    dst: Temp,
    lhs: Temp,
    rhs: Temp,
) -> (InstrV, Map<usize, Value>, Map<usize, Value>) {
    let l = resolve(lhs, map);
    let r = resolve(rhs, map);
    match (known_int(map, l.id), known_int(map, r.id)) {
        (Some(a), Some(b)) => (
            InstrV::ConstBool { dst, value: compare(c, a, b) },
            map.insert(dst.id, Value::ConstBool(compare(c, a, b))),
            vars,
        ),
        _ => (cmp_instr(c, dst, l, r), map.remove(dst.id), vars),
    }
}

/// One instruction: the instruction it becomes, and what is known of
/// temporaries (`map`) and variables (`vars`) after it.
pub open spec fn cp_step(map: Map<usize, Value>, vars: Map<usize, Value>, i: InstrV) -> (
    InstrV,
    Map<usize, Value>,
    Map<usize, Value>,
) {
    match i {
        InstrV::ConstInt { dst, value } => (i, map.insert(dst.id, Value::ConstInt(value)), vars),
        InstrV::ConstBool { dst, value } => (i, map.insert(dst.id, Value::ConstBool(value)), vars),
        InstrV::Greater { dst, lhs, rhs } => cmp_step(Cmp::Greater, map, vars, dst, lhs, rhs),
        InstrV::GreaterEq { dst, lhs, rhs } => cmp_step(Cmp::GreaterEq, map, vars, dst, lhs, rhs),
        InstrV::Less { dst, lhs, rhs } => cmp_step(Cmp::Less, map, vars, dst, lhs, rhs),
        InstrV::LessEq { dst, lhs, rhs } => cmp_step(Cmp::LessEq, map, vars, dst, lhs, rhs),
        InstrV::Load { dst, id } => (
            i,
            if vars.contains_key(id.0) {
                map.insert(dst.id, vars[id.0])
            } else {
                map.remove(dst.id)
            },
            vars,
        ),
        InstrV::Store { var, src } => {
            let s = resolve(src, map);
            (
                InstrV::Store { var, src: s },
                map,
                if map.contains_key(s.id) {
                    vars.insert(var.0, map[s.id])
                } else {
                    vars.insert(var.0, Value::Temp(s.id))
                },
            )
        },
        InstrV::Add { dst, lhs, rhs } => (
            InstrV::Add { dst, lhs: resolve(lhs, map), rhs: resolve(rhs, map) },
            map.remove(dst.id),
            vars,
        ),
        InstrV::Print { temp } => (InstrV::Print { temp: resolve(temp, map) }, map, vars),
        InstrV::JumpIfFalse { cond, label } => (InstrV::JumpIfFalse { cond: resolve(cond, map), label }, map, vars),
        InstrV::Return(Some(t)) => (InstrV::Return(Some(resolve(t, map))), map, vars),
        _ => (i, map, vars),
    }
}

/// The first `k` instructions of a block after propagation, and what is
/// known after them; nothing is known at the start of a block.
pub open spec fn cp_run(s: Seq<InstrV>, k: int) -> (Seq<InstrV>, Map<usize, Value>, Map<usize, Value>)
    decreases k,
{
    if k <= 0 || k > s.len() {
        (Seq::empty(), Map::empty(), Map::empty())
    } else {
        let (out, m, v) = cp_run(s, k - 1);
        let (i2, m2, v2) = cp_step(m, v, s[k - 1]);
        (out.push(i2), m2, v2)
    }
}

pub open spec fn cp_block(b: BlockV) -> BlockV {
    BlockV { label: b.label, instructions: cp_run(b.instructions, b.instructions.len() as int).0 }
}

pub open spec fn cp_function(f: FunctionV) -> FunctionV {
    FunctionV { name: f.name, blocks: Seq::new(f.blocks.len(), |b: int| cp_block(f.blocks[b])) }
}

/// Redirects `temp` to the temporary it is known to copy.
fn resolve_temp(temp: &mut Temp, map: &HashMap<usize, Value>)
    ensures
        *final(temp) == resolve(*old(temp), map@),
{
    if let Some(val) = map.get(&temp.id) {
        match val {
            Value::Temp(id) => {
                temp.id = *id;
            },
            Value::ConstInt(_) => {},
            Value::ConstBool(_) => {},
        }
    }
}

fn lookup_int(map: &HashMap<usize, Value>, id: usize) -> (r: Option<i128>)
    ensures
        r == known_int(map@, id),
{
    match map.get(&id) {
        Some(Value::ConstInt(a)) => Some(*a),
        _ => None,
    }
}

/// A comparison with its operands resolved, folded where both are known
/// integers.
fn propagate_cmp(
    c: Cmp,
    dst: &Temp,
    lhs: &Temp,
    rhs: &Temp,
    map: &mut HashMap<usize, Value>,
) -> (r: Instr)
    ensures
        (r.view(), final(map)@) == ({
            let s = cmp_step(c, old(map)@, Map::empty(), *dst, *lhs, *rhs);
            (s.0, s.1)
        }),
{
    let mut l = lhs.clone();
    let mut r = rhs.clone();
    resolve_temp(&mut l, map);
    resolve_temp(&mut r, map);
    match (lookup_int(map, l.id), lookup_int(map, r.id)) {
        (Some(a), Some(b)) => {
            let result = match c {
                Cmp::Greater => a > b,
                Cmp::GreaterEq => a >= b,
                Cmp::Less => a < b,
                Cmp::LessEq => a <= b,
            };
            map.insert(dst.id, Value::ConstBool(result));
            Instr::ConstBool { dst: dst.clone(), value: result }
        },
        _ => {
            map.remove(&dst.id);
            match c {
                Cmp::Greater => Instr::Greater { dst: dst.clone(), lhs: l, rhs: r },
                Cmp::GreaterEq => Instr::GreaterEq { dst: dst.clone(), lhs: l, rhs: r },
                Cmp::Less => Instr::Less { dst: dst.clone(), lhs: l, rhs: r },
                Cmp::LessEq => Instr::LessEq { dst: dst.clone(), lhs: l, rhs: r },
            }
        },
    }
}

/// One instruction after propagation; `map` and `vars` are updated.
fn propagate_instr(instr: &Instr, map: &mut HashMap<usize, Value>, vars: &mut HashMap<usize, Value>) -> (r: Instr)
    ensures
        (r.view(), final(map)@, final(vars)@) == cp_step(old(map)@, old(vars)@, instr.view()),
{
    match instr {
        Instr::ConstInt { dst, value } => {
            map.insert(dst.id, Value::ConstInt(*value));
            instr.clone()
        },
        Instr::ConstBool { dst, value } => {
            map.insert(dst.id, Value::ConstBool(*value));
            instr.clone()
        },
        Instr::Greater { dst, lhs, rhs } => propagate_cmp(Cmp::Greater, dst, lhs, rhs, map),
        Instr::GreaterEq { dst, lhs, rhs } => propagate_cmp(Cmp::GreaterEq, dst, lhs, rhs, map),
        Instr::Less { dst, lhs, rhs } => propagate_cmp(Cmp::Less, dst, lhs, rhs, map),
        Instr::LessEq { dst, lhs, rhs } => propagate_cmp(Cmp::LessEq, dst, lhs, rhs, map),
        Instr::Load { dst, id } => {
            match vars.get(&id.0) {
                Some(val) => {
                    let v = *val;
                    map.insert(dst.id, v);
                },
                None => {
                    map.remove(&dst.id);
                },
            }
            instr.clone()
        },
        Instr::Store { var, src } => {
            let mut s = src.clone();
            resolve_temp(&mut s, map);
            match map.get(&s.id) {
                Some(val) => {
                    let v = *val;
                    vars.insert(var.0, v);
                },
                None => {
                    vars.insert(var.0, Value::Temp(s.id));
                },
            }
            Instr::Store { var: *var, src: s }
        },
        Instr::Add { dst, lhs, rhs } => {
            let mut l = lhs.clone();
            let mut r = rhs.clone();
            resolve_temp(&mut l, map);
            resolve_temp(&mut r, map);
            map.remove(&dst.id);
            Instr::Add { dst: dst.clone(), lhs: l, rhs: r }
        },
        Instr::Print { temp } => {
            let mut t = temp.clone();
            resolve_temp(&mut t, map);
            Instr::Print { temp: t }
        },
        Instr::JumpIfFalse { cond, label } => {
            let mut t = cond.clone();
            resolve_temp(&mut t, map);
            Instr::JumpIfFalse { cond: t, label: *label }
        },
        Instr::Return(Some(temp)) => {
            let mut t = temp.clone();
            resolve_temp(&mut t, map);
            Instr::Return(Some(t))
        },
        _ => instr.clone(),
    }
}

/// The instructions of a block after propagation, starting with nothing
/// known.
fn propagate_block(instrs: &Vec<Instr>) -> (r: Vec<Instr>)
    ensures
        instrs_view(r@) == cp_run(instrs_view(instrs@), instrs@.len() as int).0,
{
    let ghost iv = instrs_view(instrs@);
    let mut map: HashMap<usize, Value> = HashMap::new();
    let mut vars: HashMap<usize, Value> = HashMap::new();
    let mut out: Vec<Instr> = Vec::new();
    let mut k: usize = 0;
    while k < instrs.len()
        invariant
            k <= instrs@.len(),
            iv == instrs_view(instrs@),
            (instrs_view(out@), map@, vars@) == cp_run(iv, k as int),
        decreases instrs.len() - k,
    {
        let i2 = propagate_instr(&instrs[k], &mut map, &mut vars);
        out.push(i2);
        k += 1;
        assert(instrs_view(out@) =~= cp_run(iv, k as int).0);
    }
    out
}

/// Propagates known values through every block of every function.
pub fn run(ir: &mut IRProgram)
    ensures
        final(ir)@ == Seq::new(old(ir)@.len(), |f: int| cp_function(old(ir)@[f])),
{
    let mut new_functions: Vec<FunctionIR> = Vec::new();
    let mut fi: usize = 0;
    while fi < ir.functions.len()
        invariant
            fi <= ir.functions@.len(),
            ir@ == old(ir)@,
            new_functions@.len() == fi,
            forall|f: int| 0 <= f < fi ==> #[trigger] new_functions@[f].view() == cp_function(old(ir)@[f]),
        decreases ir.functions.len() - fi,
    {
        let func = &ir.functions[fi];
        let ghost bs = blocks_view(func.blocks@);
        let mut new_blocks: Vec<BasicBlock> = Vec::new();
        let mut b: usize = 0;
        while b < func.blocks.len()
            invariant
                b <= func.blocks@.len(),
                bs == blocks_view(func.blocks@),
                new_blocks@.len() == b,
                forall|j: int| 0 <= j < b ==> #[trigger] new_blocks@[j].view() == cp_block(bs[j]),
            decreases func.blocks.len() - b,
        {
            let block = &func.blocks[b];
            let instructions = propagate_block(&block.instructions);
            new_blocks.push(BasicBlock { label: block.label, instructions });
            b += 1;
        }
        let nf = FunctionIR { name: func.name.clone(), blocks: new_blocks };
        assert(nf.view().blocks =~= cp_function(func.view()).blocks);
        new_functions.push(nf);
        fi += 1;
    }
    ir.functions = new_functions;
    assert(ir@ =~= Seq::new(old(ir)@.len(), |f: int| cp_function(old(ir)@[f])));
}

/// Propagation rewrites instructions one for one: a block keeps its label
/// and its number of instructions, and every instruction that is not a
/// comparison keeps its kind.
pub proof fn law_propagation_keeps_shape(s: Seq<InstrV>, k: int)
    requires
        0 <= k <= s.len(),
    ensures
        cp_run(s, k).0.len() == k,
        forall|j: int| 0 <= j < k ==> same_kind_or_folded(s[j], #[trigger] cp_run(s, k).0[j]),
    decreases k,
{
    if k > 0 {
        law_propagation_keeps_shape(s, k - 1);
        let (out, m, v) = cp_run(s, k - 1);
        assert(cp_run(s, k).0 == out.push(cp_step(m, v, s[k - 1]).0));
        assert forall|j: int| 0 <= j < k implies same_kind_or_folded(s[j], #[trigger] cp_run(s, k).0[j]) by {
            if j < k - 1 {
                assert(cp_run(s, k).0[j] == out[j]);
            }
        }
    }
}

/// `after` has the kind of `before`, or `before` is a comparison folded to
/// a boolean constant on the same temporary.
pub open spec fn same_kind_or_folded(before: InstrV, after: InstrV) -> bool {
    match before {
        InstrV::Greater { dst, .. } | InstrV::GreaterEq { dst, .. } | InstrV::Less { dst, .. } | InstrV::LessEq {
            dst,
            ..
        } => (after matches InstrV::ConstBool { dst: d, .. } && d == dst) || same_kind(before, after),
        _ => same_kind(before, after),
    }
}

pub open spec fn same_kind(a: InstrV, b: InstrV) -> bool {
    match (a, b) {
        (InstrV::ConstInt { .. }, InstrV::ConstInt { .. }) => true,
        (InstrV::ConstBool { .. }, InstrV::ConstBool { .. }) => true,
        (InstrV::Load { .. }, InstrV::Load { .. }) => true,
        (InstrV::Store { .. }, InstrV::Store { .. }) => true,
        (InstrV::Add { .. }, InstrV::Add { .. }) => true,
        (InstrV::Sub { .. }, InstrV::Sub { .. }) => true,
        (InstrV::Mul { .. }, InstrV::Mul { .. }) => true,
        (InstrV::Div { .. }, InstrV::Div { .. }) => true,
        (InstrV::Eq { .. }, InstrV::Eq { .. }) => true,
        (InstrV::Greater { .. }, InstrV::Greater { .. }) => true,
        (InstrV::Less { .. }, InstrV::Less { .. }) => true,
        (InstrV::GreaterEq { .. }, InstrV::GreaterEq { .. }) => true,
        (InstrV::LessEq { .. }, InstrV::LessEq { .. }) => true,
        (InstrV::Print { .. }, InstrV::Print { .. }) => true,
        (InstrV::Jump(_), InstrV::Jump(_)) => true,
        (InstrV::JumpIfFalse { .. }, InstrV::JumpIfFalse { .. }) => true,
        (InstrV::Call { .. }, InstrV::Call { .. }) => true,
        (InstrV::Return(_), InstrV::Return(_)) => true,
        _ => false,
    }
}

/// A comparison of two temporaries known to hold integer constants becomes
/// the boolean constant of the comparison.
pub proof fn law_constant_comparison_folds(
    map: Map<usize, Value>,
    vars: Map<usize, Value>,
    dst: Temp,
    lhs: Temp,
    rhs: Temp,
    a: i128,
    b: i128,
)
    requires
        known_int(map, resolve(lhs, map).id) == Some(a),
        known_int(map, resolve(rhs, map).id) == Some(b),
    ensures
        cp_step(map, vars, InstrV::Less { dst, lhs, rhs }).0 == (InstrV::ConstBool { dst, value: a < b }),
        cp_step(map, vars, InstrV::Greater { dst, lhs, rhs }).0 == (InstrV::ConstBool { dst, value: a > b }),
        cp_step(map, vars, InstrV::LessEq { dst, lhs, rhs }).0 == (InstrV::ConstBool { dst, value: a <= b }),
        cp_step(map, vars, InstrV::GreaterEq { dst, lhs, rhs }).0 == (InstrV::ConstBool { dst, value: a >= b }),
{
}

/// The temporaries hold values `env` agrees with what is known of them: a
/// temporary known to copy another holds the same value, one known to hold
/// a constant holds it (a boolean as 1 or 0).
pub open spec fn agrees_with(map: Map<usize, Value>, env: spec_fn(usize) -> int) -> bool {
    forall|id: usize|
        #[trigger] map.contains_key(id) ==> match map[id] {
            Value::Temp(j) => env(id) == env(j),
            Value::ConstInt(v) => env(id) == v as int,
            Value::ConstBool(b) => env(id) == truth(b),
        }
}

/// Propagation never changes what an instruction computes: wherever the
/// temporaries hold values that agree with what is known of them, the
/// rewritten instruction writes the same temporary and stores the same
/// value as the original. A comparison that is not folded keeps its
/// operator and the order of its operands, each replaced only by the
/// temporary it copies.
pub proof fn law_propagation_keeps_values(map: Map<usize, Value>, vars: Map<usize, Value>, i: InstrV, env: spec_fn(usize) -> int)
    requires
        agrees_with(map, env),
    ensures
        dest(cp_step(map, vars, i).0) == dest(i),
        instr_value(cp_step(map, vars, i).0, env) == instr_value(i, env),
{
    match i {
        InstrV::Greater { lhs, rhs, .. } | InstrV::GreaterEq { lhs, rhs, .. } | InstrV::Less { lhs, rhs, .. }
        | InstrV::LessEq { lhs, rhs, .. } | InstrV::Add { lhs, rhs, .. } => {
            assert(map.contains_key(lhs.id) ==> true);
            assert(map.contains_key(rhs.id) ==> true);
            let l = resolve(lhs, map);
            let r = resolve(rhs, map);
            assert(env(l.id) == env(lhs.id));
            assert(env(r.id) == env(rhs.id));
            assert(map.contains_key(l.id) ==> true);
            assert(map.contains_key(r.id) ==> true);
        },
        _ => {},
    }
}

/// The temporary a single-operand instruction reads (a store, a print, a
/// conditional jump or a return of a value), with what it does besides.
pub open spec fn read_operand(i: InstrV) -> Option<Temp> {
    match i {
        InstrV::Store { src, .. } => Some(src),
        InstrV::Print { temp } => Some(temp),
        InstrV::JumpIfFalse { cond, .. } => Some(cond),
        InstrV::Return(Some(t)) => Some(t),
        _ => None,
    }
}

/// Propagation keeps what a store, a print, a conditional jump or a return
/// does: the instruction keeps its kind, its variable or label, and reads a
/// temporary holding the same value and of the same type.
pub proof fn law_propagation_keeps_operands(
    map: Map<usize, Value>,
    vars: Map<usize, Value>,
    i: InstrV,
    env: spec_fn(usize) -> int,
)
    requires
        agrees_with(map, env),
        read_operand(i) is Some,
    ensures
        ({
            let after = cp_step(map, vars, i).0;
            &&& read_operand(after) is Some
            &&& env(read_operand(after)->0.id) == env(read_operand(i)->0.id)
            &&& read_operand(after)->0.ty == read_operand(i)->0.ty
            &&& same_kind(i, after)
            &&& (i matches InstrV::Store { var, .. } ==> after matches InstrV::Store { var: v2, .. } && v2 == var)
            &&& (i matches InstrV::JumpIfFalse { label, .. } ==> after matches InstrV::JumpIfFalse { label: l2, .. }
                && l2 == label)
        }),
{
    let t = read_operand(i)->0;
    assert(map.contains_key(t.id) ==> true);
}

/// What propagation knows stays true as the instructions run: if the
/// temporaries agree with what is known before an instruction that writes a
/// new value (a constant, a comparison or an addition) into a temporary
/// that nothing known copies, they agree with what is known after it once
/// that temporary holds the instruction's value.
pub proof fn law_propagation_tracks_values(
    map: Map<usize, Value>,
    vars: Map<usize, Value>,
    i: InstrV,
    env: spec_fn(usize) -> int,
)
    requires
        agrees_with(map, env),
        i is ConstInt || i is ConstBool || i is Greater || i is GreaterEq || i is Less || i is LessEq || i is Add,
        forall|id: usize| #[trigger] map.contains_key(id) ==> map[id] != Value::Temp(dest(i)->0.id),
    ensures
        agrees_with(
            cp_step(map, vars, i).1,
            |id: usize| if id == dest(i)->0.id { instr_value(i, env)->0 } else { env(id) },
        ),
{
    let d = dest(i)->0.id;
    let env2 = |id: usize| if id == d { instr_value(i, env)->0 } else { env(id) };
    let m2 = cp_step(map, vars, i).1;
    law_propagation_keeps_values(map, vars, i, env);
    assert forall|id: usize| #[trigger] m2.contains_key(id) implies match m2[id] {
        Value::Temp(j) => env2(id) == env2(j),
        Value::ConstInt(v) => env2(id) == v as int,
        Value::ConstBool(b) => env2(id) == truth(b),
    } by {
        if id != d {
            assert(map.contains_key(id));
            assert(m2[id] == map[id]);
        }
    }
}

} // verus!
