//! A three-address intermediate form: temporaries, variables and labelled
//! blocks of instructions.
use vstd::prelude::*;
use crate::compiler::parser::Type;
use crate::compiler::semantic::{trunc_div, truth};

verus! {

/// A temporary value with its type.
#[derive(Debug)]
pub struct Temp {
    pub id: usize,
    pub ty: Type,
}

impl Temp {
    pub fn new(id: usize, ty: Type) -> (r: Self)
        ensures
            r.id == id,
            r.ty == ty,
    {
        Self { id, ty }
    }

    pub fn ty(&self) -> (r: &Type)
        ensures
            *r == self.ty,
    {
        &self.ty
    }
}

impl Clone for Temp {
    fn clone(&self) -> (r: Self)
        ensures
            r == *self,
    {
        Temp { id: self.id, ty: self.ty.clone() }
    }
}

#[derive(Debug, Clone, Copy, PartialEq, Eq, Hash, Structural)]
pub struct FuncId {
    pub id: usize,
}

#[derive(Debug, Clone, Copy, PartialEq, Eq, Hash, Structural)]
pub struct Label(pub usize);

#[derive(Debug, Clone, Copy, PartialEq, Eq, Hash, Structural)]
pub struct VarId(pub usize);

#[derive(Debug)]
pub enum Instr {
    ConstInt { dst: Temp, value: i128 },
    ConstBool { dst: Temp, value: bool },
    Load { dst: Temp, id: VarId },
    Store { var: VarId, src: Temp },
    Add { dst: Temp, lhs: Temp, rhs: Temp },
    Sub { dst: Temp, lhs: Temp, rhs: Temp },
    Mul { dst: Temp, lhs: Temp, rhs: Temp },
    Div { dst: Temp, lhs: Temp, rhs: Temp },
    Eq { dst: Temp, lhs: Temp, rhs: Temp },
    Greater { dst: Temp, lhs: Temp, rhs: Temp },
    Less { dst: Temp, lhs: Temp, rhs: Temp },
    GreaterEq { dst: Temp, lhs: Temp, rhs: Temp },
    LessEq { dst: Temp, lhs: Temp, rhs: Temp },
    Print { temp: Temp },
    Jump(Label),
    JumpIfFalse { cond: Temp, label: Label },
    Call { dst: Option<Temp>, name: FuncId, args: Vec<Temp> },
    Return(Option<Temp>),
}

/// An instruction with the arguments of a call as a sequence.
pub enum InstrV {
    ConstInt { dst: Temp, value: i128 },
    ConstBool { dst: Temp, value: bool },
    Load { dst: Temp, id: VarId },
    Store { var: VarId, src: Temp },
    Add { dst: Temp, lhs: Temp, rhs: Temp },
    Sub { dst: Temp, lhs: Temp, rhs: Temp },
    Mul { dst: Temp, lhs: Temp, rhs: Temp },
    Div { dst: Temp, lhs: Temp, rhs: Temp },
    Eq { dst: Temp, lhs: Temp, rhs: Temp },
    Greater { dst: Temp, lhs: Temp, rhs: Temp },
    Less { dst: Temp, lhs: Temp, rhs: Temp },
    GreaterEq { dst: Temp, lhs: Temp, rhs: Temp },
    LessEq { dst: Temp, lhs: Temp, rhs: Temp },
    Print { temp: Temp },
    Jump(Label),
    JumpIfFalse { cond: Temp, label: Label },
    Call { dst: Option<Temp>, name: FuncId, args: Seq<Temp> },
    Return(Option<Temp>),
}

impl Instr {
    pub open spec fn view(&self) -> InstrV {
        match self {
            Instr::ConstInt { dst, value } => InstrV::ConstInt { dst: *dst, value: *value },
            Instr::ConstBool { dst, value } => InstrV::ConstBool { dst: *dst, value: *value },
            Instr::Load { dst, id } => InstrV::Load { dst: *dst, id: *id },
            Instr::Store { var, src } => InstrV::Store { var: *var, src: *src },
            Instr::Add { dst, lhs, rhs } => InstrV::Add { dst: *dst, lhs: *lhs, rhs: *rhs },
            Instr::Sub { dst, lhs, rhs } => InstrV::Sub { dst: *dst, lhs: *lhs, rhs: *rhs },
            Instr::Mul { dst, lhs, rhs } => InstrV::Mul { dst: *dst, lhs: *lhs, rhs: *rhs },
            Instr::Div { dst, lhs, rhs } => InstrV::Div { dst: *dst, lhs: *lhs, rhs: *rhs },
            Instr::Eq { dst, lhs, rhs } => InstrV::Eq { dst: *dst, lhs: *lhs, rhs: *rhs },
            Instr::Greater { dst, lhs, rhs } => InstrV::Greater { dst: *dst, lhs: *lhs, rhs: *rhs },
            Instr::Less { dst, lhs, rhs } => InstrV::Less { dst: *dst, lhs: *lhs, rhs: *rhs },
            Instr::GreaterEq { dst, lhs, rhs } => InstrV::GreaterEq { dst: *dst, lhs: *lhs, rhs: *rhs },
            Instr::LessEq { dst, lhs, rhs } => InstrV::LessEq { dst: *dst, lhs: *lhs, rhs: *rhs },
            Instr::Print { temp } => InstrV::Print { temp: *temp },
            Instr::Jump(l) => InstrV::Jump(*l),
            Instr::JumpIfFalse { cond, label } => InstrV::JumpIfFalse { cond: *cond, label: *label },
            Instr::Call { dst, name, args } => InstrV::Call { dst: *dst, name: *name, args: args@ },
            Instr::Return(t) => InstrV::Return(*t),
        }
    }
}

fn clone_opt_temp(t: &Option<Temp>) -> (r: Option<Temp>)
    ensures
        r == *t,
{
    match t {
        Some(t) => Some(t.clone()),
        None => None,
    }
}

fn clone_temps(ts: &Vec<Temp>) -> (r: Vec<Temp>)
    ensures
        r@ == ts@,
{
    let mut r: Vec<Temp> = Vec::new();
    let mut i: usize = 0;
    while i < ts.len()
        invariant
            i <= ts@.len(),
            r@ == ts@.take(i as int),
        decreases ts.len() - i,
    {
        r.push(ts[i].clone());
        i += 1;
        assert(r@ =~= ts@.take(i as int));
    }
    assert(ts@.take(ts@.len() as int) =~= ts@);
    r
}

impl Clone for Instr {
    fn clone(&self) -> (r: Self)
        ensures
            r.view() == self.view(),
    {
        match self {
            Instr::ConstInt { dst, value } => Instr::ConstInt { dst: dst.clone(), value: *value },
            Instr::ConstBool { dst, value } => Instr::ConstBool { dst: dst.clone(), value: *value },
            Instr::Load { dst, id } => Instr::Load { dst: dst.clone(), id: *id },
            Instr::Store { var, src } => Instr::Store { var: *var, src: src.clone() },
            Instr::Add { dst, lhs, rhs } => Instr::Add { dst: dst.clone(), lhs: lhs.clone(), rhs: rhs.clone() },
            Instr::Sub { dst, lhs, rhs } => Instr::Sub { dst: dst.clone(), lhs: lhs.clone(), rhs: rhs.clone() },
            Instr::Mul { dst, lhs, rhs } => Instr::Mul { dst: dst.clone(), lhs: lhs.clone(), rhs: rhs.clone() },
            Instr::Div { dst, lhs, rhs } => Instr::Div { dst: dst.clone(), lhs: lhs.clone(), rhs: rhs.clone() },
            Instr::Eq { dst, lhs, rhs } => Instr::Eq { dst: dst.clone(), lhs: lhs.clone(), rhs: rhs.clone() },
            Instr::Greater { dst, lhs, rhs } => Instr::Greater {
                dst: dst.clone(),
                lhs: lhs.clone(),
                rhs: rhs.clone(),
            },
            Instr::Less { dst, lhs, rhs } => Instr::Less { dst: dst.clone(), lhs: lhs.clone(), rhs: rhs.clone() },
            Instr::GreaterEq { dst, lhs, rhs } => Instr::GreaterEq {
                dst: dst.clone(),
                lhs: lhs.clone(),
                rhs: rhs.clone(),
            },
            Instr::LessEq { dst, lhs, rhs } => Instr::LessEq {
                dst: dst.clone(),
                lhs: lhs.clone(),
                rhs: rhs.clone(),
            },
            Instr::Print { temp } => Instr::Print { temp: temp.clone() },
            Instr::Jump(l) => Instr::Jump(*l),
            Instr::JumpIfFalse { cond, label } => Instr::JumpIfFalse { cond: cond.clone(), label: *label },
            Instr::Call { dst, name, args } => Instr::Call {
                dst: clone_opt_temp(dst),
                name: *name,
                args: clone_temps(args),
            },
            Instr::Return(t) => Instr::Return(clone_opt_temp(t)),
        }
    }
}

#[derive(Debug)]
pub struct BasicBlock {
    pub label: Label,
    pub instructions: Vec<Instr>,
}

#[derive(Debug)]
pub struct FunctionIR {
    pub name: String,
    pub blocks: Vec<BasicBlock>,
}

#[derive(Debug)]
pub struct IRProgram {
    pub functions: Vec<FunctionIR>,
}

pub struct BlockV {
    pub label: Label,
    pub instructions: Seq<InstrV>,
}

pub struct FunctionV {
    pub name: String,
    pub blocks: Seq<BlockV>,
}

pub open spec fn instrs_view(s: Seq<Instr>) -> Seq<InstrV> {
    Seq::new(s.len(), |i: int| s[i].view())
}

impl BasicBlock {
    pub open spec fn view(&self) -> BlockV {
        BlockV { label: self.label, instructions: instrs_view(self.instructions@) }
    }
}

pub open spec fn blocks_view(s: Seq<BasicBlock>) -> Seq<BlockV> {
    Seq::new(s.len(), |i: int| s[i].view())
}

impl FunctionIR {
    pub open spec fn view(&self) -> FunctionV {
        FunctionV { name: self.name, blocks: blocks_view(self.blocks@) }
    }
}

impl IRProgram {
    pub open spec fn view(&self) -> Seq<FunctionV> {
        Seq::new(self.functions@.len(), |i: int| self.functions@[i].view())
    }
}

/// The temporary an instruction writes, if any.
pub open spec fn dest(i: InstrV) -> Option<Temp> {
    match i {
        InstrV::ConstInt { dst, .. } | InstrV::ConstBool { dst, .. } | InstrV::Load { dst, .. } | InstrV::Add {
            dst,
            ..
        } | InstrV::Sub { dst, .. } | InstrV::Mul { dst, .. } | InstrV::Div { dst, .. } | InstrV::Eq { dst, .. }
        | InstrV::Greater { dst, .. } | InstrV::Less { dst, .. } | InstrV::GreaterEq { dst, .. } | InstrV::LessEq {
            dst,
            ..
        } => Some(dst),
        InstrV::Call { dst, .. } => dst,
        _ => None,
    }
}

/// The value an instruction stores in its destination when each temporary
/// `t` holds `env(t.id)` (a boolean as 1 or 0): constants, and arithmetic
/// and comparisons of two temporaries (division rounding toward zero, with
/// no value for a zero divisor). Loads and calls take their value from
/// elsewhere and have none here.
pub open spec fn instr_value(i: InstrV, env: spec_fn(usize) -> int) -> Option<int> {
    match i {
        InstrV::ConstInt { value, .. } => Some(value as int),
        InstrV::ConstBool { value, .. } => Some(truth(value)),
        InstrV::Add { lhs, rhs, .. } => Some(env(lhs.id) + env(rhs.id)),
        InstrV::Sub { lhs, rhs, .. } => Some(env(lhs.id) - env(rhs.id)),
        InstrV::Mul { lhs, rhs, .. } => Some(env(lhs.id) * env(rhs.id)),
        InstrV::Div { lhs, rhs, .. } => if env(rhs.id) == 0 {
            None
        } else {
            Some(trunc_div(env(lhs.id), env(rhs.id)))
        },
        InstrV::Eq { lhs, rhs, .. } => Some(truth(env(lhs.id) == env(rhs.id))),
        InstrV::Greater { lhs, rhs, .. } => Some(truth(env(lhs.id) > env(rhs.id))),
        InstrV::Less { lhs, rhs, .. } => Some(truth(env(lhs.id) < env(rhs.id))),
        InstrV::GreaterEq { lhs, rhs, .. } => Some(truth(env(lhs.id) >= env(rhs.id))),
        InstrV::LessEq { lhs, rhs, .. } => Some(truth(env(lhs.id) <= env(rhs.id))),
        _ => None,
    }
}

} // verus!
