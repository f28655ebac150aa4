//! Removal of instructions that define temporaries nothing reads.
use std::collections::HashSet;
use vstd::prelude::*;
use crate::compiler::ir::{
    blocks_view, instrs_view, BasicBlock, BlockV, FunctionIR, FunctionV, IRProgram, Instr, InstrV,
};

verus! {

broadcast use vstd::std_specs::hash::group_hash_axioms;

/// The temporaries an instruction is counted as reading: the operands of
/// `Store`, `Add`, the comparisons other than `Eq`, `Print`, `JumpIfFalse`
/// and a `Return` of a value.
pub open spec fn uses_of(i: InstrV) -> Set<usize> {
    match i {
        InstrV::Store { src, .. } => set![src.id],
        InstrV::Add { lhs, rhs, .. } => set![lhs.id, rhs.id],
        InstrV::Greater { lhs, rhs, .. } => set![lhs.id, rhs.id],
        InstrV::GreaterEq { lhs, rhs, .. } => set![lhs.id, rhs.id],
        InstrV::Less { lhs, rhs, .. } => set![lhs.id, rhs.id],
        InstrV::LessEq { lhs, rhs, .. } => set![lhs.id, rhs.id],
        InstrV::Print { temp } => set![temp.id],
        InstrV::JumpIfFalse { cond, .. } => set![cond.id],
        InstrV::Return(Some(t)) => set![t.id],
        _ => Set::empty(),
    }
}

/// The temporaries read by the first `k` instructions.
pub open spec fn block_uses(s: Seq<InstrV>, k: int) -> Set<usize>
    decreases k,
{
    if k <= 0 || k > s.len() {
        Set::empty()
    } else {
        block_uses(s, k - 1).union(uses_of(s[k - 1]))
    }
}

/// The temporaries read anywhere in the first `b` blocks.
pub open spec fn all_uses(bs: Seq<BlockV>, b: int) -> Set<usize>
    decreases b,
{
    if b <= 0 || b > bs.len() {
        Set::empty()
    } else {
        all_uses(bs, b - 1).union(block_uses(bs[b - 1].instructions, bs[b - 1].instructions.len() as int))
    }
}

/// The temporaries read anywhere in a function.
pub open spec fn used_in(bs: Seq<BlockV>) -> Set<usize> {
    all_uses(bs, bs.len() as int)
}

/// The temporary an instruction defines, for the kinds that may be removed:
/// constants, loads, `Add` and the comparisons other than `Eq`.
pub open spec fn removable_def(i: InstrV) -> Option<usize> {
    match i {
        InstrV::ConstInt { dst, .. } => Some(dst.id),
        InstrV::ConstBool { dst, .. } => Some(dst.id),
        InstrV::Load { dst, .. } => Some(dst.id),
        InstrV::Add { dst, .. } => Some(dst.id),
        InstrV::Greater { dst, .. } => Some(dst.id),
        InstrV::GreaterEq { dst, .. } => Some(dst.id),
        InstrV::Less { dst, .. } => Some(dst.id),
        InstrV::LessEq { dst, .. } => Some(dst.id),
        _ => None,
    }
}

/// An instruction stays unless it is a removable definition of a
/// temporary outside `used`.
pub open spec fn keep(i: InstrV, used: Set<usize>) -> bool {
    match removable_def(i) {
        Some(id) => used.contains(id),
        None => true,
    }
}

pub open spec fn keeper(used: Set<usize>) -> spec_fn(InstrV) -> bool {
    |i: InstrV| keep(i, used)
}

/// A block with only the instructions that stay.
pub open spec fn dce_block(b: BlockV, used: Set<usize>) -> BlockV {
    BlockV { label: b.label, instructions: b.instructions.filter(keeper(used)) }
}

/// A function after removal: the temporaries read anywhere in it decide
/// for all of its blocks.
pub open spec fn dce_function(f: FunctionV) -> FunctionV {
    FunctionV {
        name: f.name,
        blocks: Seq::new(f.blocks.len(), |b: int| dce_block(f.blocks[b], used_in(f.blocks))),
    }
}

/// Adds the temporaries `instr` reads to `used`.
fn collect_uses(instr: &Instr, used: &mut HashSet<usize>)
    ensures
        final(used)@ == old(used)@.union(uses_of(instr.view())),
{
    match instr {
        Instr::Store { src, .. } => {
            used.insert(src.id);
        },
        Instr::Add { lhs, rhs, .. } | Instr::Greater { lhs, rhs, .. } | Instr::GreaterEq { lhs, rhs, .. }
        | Instr::Less { lhs, rhs, .. } | Instr::LessEq { lhs, rhs, .. } => {
            used.insert(lhs.id);
            used.insert(rhs.id);
        },
        Instr::Print { temp } => {
            used.insert(temp.id);
        },
        Instr::JumpIfFalse { cond, .. } => {
            used.insert(cond.id);
        },
        Instr::Return(Some(temp)) => {
            used.insert(temp.id);
        },
        _ => {},
    }
    assert(used@ =~= old(used)@.union(uses_of(instr.view())));
}

/// The temporaries read anywhere in `func`.
fn used_temps(func: &FunctionIR) -> (r: HashSet<usize>)
    ensures
        r@ == used_in(blocks_view(func.blocks@)),
{
    let ghost bs = blocks_view(func.blocks@);
    let mut used: HashSet<usize> = HashSet::new();
    let mut b: usize = 0;
    while b < func.blocks.len()
        invariant
            b <= func.blocks@.len(),
            bs == blocks_view(func.blocks@),
            used@ == all_uses(bs, b as int),
        decreases func.blocks.len() - b,
    {
        let block = &func.blocks[b];
        let ghost is = bs[b as int].instructions;
        let ghost before = used@;
        let mut k: usize = 0;
        while k < block.instructions.len()
            invariant
                k <= block.instructions@.len(),
                is == instrs_view(block.instructions@),
                used@ == before.union(block_uses(is, k as int)),
            decreases block.instructions.len() - k,
        {
            collect_uses(&block.instructions[k], &mut used);
            k += 1;
            assert(used@ =~= before.union(block_uses(is, k as int)));
        }
        b += 1;
    }
    used
}

/// The instructions of `instrs` that stay.
fn filter_instrs(instrs: &Vec<Instr>, used: &HashSet<usize>) -> (r: Vec<Instr>)
    ensures
        instrs_view(r@) == instrs_view(instrs@).filter(keeper(used@)),
{
    let ghost iv = instrs_view(instrs@);
    let mut r: Vec<Instr> = Vec::new();
    let mut k: usize = 0;
    while k < instrs.len()
        invariant
            k <= instrs@.len(),
            iv == instrs_view(instrs@),
            instrs_view(r@) == iv.take(k as int).filter(keeper(used@)),
        decreases instrs.len() - k,
    {
        let instr = &instrs[k];
        let stays = match instr {
            Instr::ConstInt { dst, .. } | Instr::ConstBool { dst, .. } | Instr::Load { dst, .. } | Instr::Add {
                dst,
                ..
            } | Instr::Greater { dst, .. } | Instr::GreaterEq { dst, .. } | Instr::Less { dst, .. }
            | Instr::LessEq { dst, .. } => used.contains(&dst.id),
            _ => true,
        };
        assert(iv.take(k + 1) =~= iv.take(k as int).push(iv[k as int]));
        assert(iv[k as int] == instr.view());
        assert(stays == keep(instr.view(), used@));
        proof {
            iv.take(k as int).lemma_filter_push(iv[k as int], keeper(used@));
        }
        if stays {
            let c = instr.clone();
            r.push(c);
            assert(instrs_view(r@) =~= iv.take(k as int).filter(keeper(used@)).push(iv[k as int]));
        }
        k += 1;
    }
    assert(iv.take(iv.len() as int) =~= iv);
    r
}

/// Removes, in every function, each constant, load, `Add` or comparison
/// (other than `Eq`) whose temporary no instruction of that function reads.
pub fn eliminate_dead_temps(ir: &mut IRProgram)
    ensures
        final(ir)@ == Seq::new(old(ir)@.len(), |f: int| dce_function(old(ir)@[f])),
{
    let mut new_functions: Vec<FunctionIR> = Vec::new();
    let mut fi: usize = 0;
    while fi < ir.functions.len()
        invariant
            fi <= ir.functions@.len(),
            ir@ == old(ir)@,
            new_functions@.len() == fi,
            forall|f: int| 0 <= f < fi ==> #[trigger] new_functions@[f].view() == dce_function(old(ir)@[f]),
        decreases ir.functions.len() - fi,
    {
        let func = &ir.functions[fi];
        let used = used_temps(func);
        let ghost bs = blocks_view(func.blocks@);
        let mut new_blocks: Vec<BasicBlock> = Vec::new();
        let mut b: usize = 0;
        while b < func.blocks.len()
            invariant
                b <= func.blocks@.len(),
                bs == blocks_view(func.blocks@),
                used@ == used_in(bs),
                new_blocks@.len() == b,
                forall|j: int| 0 <= j < b ==> #[trigger] new_blocks@[j].view() == dce_block(bs[j], used@),
            decreases func.blocks.len() - b,
        {
            let block = &func.blocks[b];
            let instructions = filter_instrs(&block.instructions, &used);
            new_blocks.push(BasicBlock { label: block.label, instructions });
            b += 1;
        }
        let nf = FunctionIR { name: func.name.clone(), blocks: new_blocks };
        assert(nf.view().blocks =~= dce_function(func.view()).blocks);
        new_functions.push(nf);
        fi += 1;
    }
    ir.functions = new_functions;
    assert(ir@ =~= Seq::new(old(ir)@.len(), |f: int| dce_function(old(ir)@[f])));
}

/// The instructions that can never be removed.
pub open spec fn effectful() -> spec_fn(InstrV) -> bool {
    |i: InstrV| removable_def(i) is None
}

proof fn lemma_filter_effectful(s: Seq<InstrV>, used: Set<usize>)
    ensures
        s.filter(keeper(used)).filter(effectful()) == s.filter(effectful()),
    decreases s.len(),
{
    if s.len() > 0 {
        let t = s.drop_last();
        let x = s.last();
        assert(s =~= t.push(x));
        lemma_filter_effectful(t, used);
        t.lemma_filter_push(x, keeper(used));
        t.lemma_filter_push(x, effectful());
        if keep(x, used) {
            t.filter(keeper(used)).lemma_filter_push(x, effectful());
        }
    } else {
        assert(s.filter(keeper(used)) =~= s) by {
            reveal(Seq::filter);
        }
    }
}

/// Dead code elimination keeps every instruction that is not a removable
/// definition (stores, prints, jumps, calls, returns, `Sub`, `Mul`, `Div`,
/// `Eq`), in order, in every block; blocks keep their labels.
pub proof fn law_dce_keeps_effects(f: FunctionV, b: int)
    requires
        0 <= b < f.blocks.len(),
    ensures
        dce_function(f).blocks.len() == f.blocks.len(),
        dce_function(f).blocks[b].label == f.blocks[b].label,
        dce_function(f).blocks[b].instructions.filter(effectful()) == f.blocks[b].instructions.filter(
            effectful(),
        ),
{
    lemma_filter_effectful(f.blocks[b].instructions, used_in(f.blocks));
}

/// A definition of a temporary that some instruction of the function reads
/// is never removed.
pub proof fn law_dce_keeps_used(f: FunctionV, b: int, i: InstrV)
    requires
        0 <= b < f.blocks.len(),
        f.blocks[b].instructions.contains(i),
        removable_def(i) matches Some(id) && used_in(f.blocks).contains(id),
    ensures
        dce_function(f).blocks[b].instructions.contains(i),
{
    let s = f.blocks[b].instructions;
    let k = choose|k: int| 0 <= k < s.len() && s[k] == i;
    s.lemma_filter_contains_rev(keeper(used_in(f.blocks)), i);
}

} // verus!
