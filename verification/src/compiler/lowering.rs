//! Lowering of statements to the intermediate form: expressions become
//! instructions on fresh temporaries, variables get numbers, and `if`
//! statements become blocks joined by jumps.
use std::collections::HashMap;
use vstd::prelude::*;
use crate::compiler::ir::{
    blocks_view, dest, instr_value, BasicBlock, BlockV, FunctionIR, IRProgram, Instr, InstrV, Label, Temp, VarId,
};
use crate::compiler::parser::{
    exprs_view, lemma_if_view, lemma_print_view, lemma_simple_stmt_views, opt_block_view, stmts_view,
    BinOp, Expr, ExprV, IfStatement, Mutability, Stmt, StmtV, Type,
};
use crate::compiler::semantic::{binop_value, is_integer_spec, source_value};

verus! {

broadcast use vstd::std_specs::hash::group_hash_axioms;

/// Lowers statements into blocks. Temporaries, labels and variables are
/// numbered from counters; each variable's type is the type of the value
/// last stored by its declaration.
pub struct Lowering {
    temp_counter: usize,
    label_counter: usize,
    symbols: HashMap<usize, Type>,
    var_table: Vec<(String, VarId)>,
    next_var_id: usize,
}

/// The state of a lowering: the counters, the type of each variable (by
/// number), and the number given to each name, in the order given.
pub struct LState {
    pub temp_counter: int,
    pub label_counter: int,
    pub symbols: Map<usize, Type>,
    pub var_table: Seq<(String, VarId)>,
    pub next_var_id: int,
}

impl Lowering {
    pub closed spec fn view(&self) -> LState {
        LState {
            temp_counter: self.temp_counter as int,
            label_counter: self.label_counter as int,
            symbols: self.symbols@,
            var_table: self.var_table@,
            next_var_id: self.next_var_id as int,
        }
    }
}

pub open spec fn initial_lstate() -> LState {
    LState { temp_counter: 0, label_counter: 0, symbols: Map::empty(), var_table: Seq::empty(), next_var_id: 0 }
}

/// A fresh temporary of type `ty` (`None` where its counter would pass
/// `usize::MAX`).
pub open spec fn new_temp_spec(st: LState, ty: Type) -> Option<(Temp, LState)> {
    if st.temp_counter < 0 || st.temp_counter >= usize::MAX {
        None
    } else {
        Some((Temp { id: st.temp_counter as usize, ty }, LState { temp_counter: st.temp_counter + 1, ..st }))
    }
}

/// A fresh block with a fresh label, added at the end.
pub open spec fn new_block_spec(st: LState, bs: Seq<BlockV>) -> Option<(int, LState, Seq<BlockV>)> {
    if st.label_counter < 0 || st.label_counter >= usize::MAX {
        None
    } else {
        Some((
            bs.len() as int,
            LState { label_counter: st.label_counter + 1, ..st },
            bs.push(BlockV { label: Label(st.label_counter as usize), instructions: Seq::empty() }),
        ))
    }
}

/// The number first given to `name` from index `i` on.
pub open spec fn find_var(table: Seq<(String, VarId)>, name: Seq<char>, i: int) -> Option<VarId>
    decreases table.len() - i,
{
    if i < 0 || i >= table.len() {
        None
    } else if table[i].0@ == name {
        Some(table[i].1)
    } else {
        find_var(table, name, i + 1)
    }
}

/// The number of a variable, given it afresh where it has none.
pub open spec fn var_id_spec(st: LState, name: String) -> Option<(VarId, LState)> {
    match find_var(st.var_table, name@, 0) {
        Some(id) => Some((id, st)),
        None => if st.next_var_id < 0 || st.next_var_id >= usize::MAX {
            None
        } else {
            let id = VarId(st.next_var_id as usize);
            Some((id, LState { next_var_id: st.next_var_id + 1, var_table: st.var_table.push((name, id)), ..st }))
        },
    }
}

/// `i` appended to block `cur`.
pub open spec fn push_instr_spec(bs: Seq<BlockV>, cur: int, i: InstrV) -> Seq<BlockV> {
    bs.update(cur, BlockV { label: bs[cur].label, instructions: bs[cur].instructions.push(i) })
}

/// A block ends in a return or a jump.
pub open spec fn terminated(b: BlockV) -> bool {
    b.instructions.len() > 0 && (b.instructions.last() is Return || b.instructions.last() is Jump
        || b.instructions.last() is JumpIfFalse)
}

/// The type of the result of a binary operator on operands of type `t`;
/// `None` for the operators not lowered.
pub open spec fn binop_result(op: BinOp, t: Type) -> Option<Type> {
    if op == BinOp::Add || op == BinOp::Sub || op == BinOp::Mul || op == BinOp::Div {
        Some(t)
    } else if op == BinOp::Greater || op == BinOp::Less || op == BinOp::GreaterEqual || op == BinOp::LessEqual {
        Some(Type::Bool)
    } else {
        None
    }
}

pub open spec fn binop_instr(op: BinOp, dst: Temp, lhs: Temp, rhs: Temp) -> InstrV {
    if op == BinOp::Add {
        InstrV::Add { dst, lhs, rhs }
    } else if op == BinOp::Sub {
        InstrV::Sub { dst, lhs, rhs }
    } else if op == BinOp::Mul {
        InstrV::Mul { dst, lhs, rhs }
    } else if op == BinOp::Div {
        InstrV::Div { dst, lhs, rhs }
    } else if op == BinOp::Greater {
        InstrV::Greater { dst, lhs, rhs }
    } else if op == BinOp::GreaterEqual {
        InstrV::GreaterEq { dst, lhs, rhs }
    } else if op == BinOp::Less {
        InstrV::Less { dst, lhs, rhs }
    } else {
        InstrV::LessEq { dst, lhs, rhs }
    }
}

/// An expression lowered into block `cur`: the temporary holding its value,
/// the state and the blocks after. `None` where lowering stops: an
/// expression other than an integer or boolean literal, a variable or a
/// binary operation; a variable with no recorded type; operands of
/// different types; an operator other than `+ - * /` and the four ordered
/// comparisons; operands not of an integer type; a counter at its limit.
pub open spec fn lower_expr_spec(st: LState, bs: Seq<BlockV>, e: ExprV, cur: int) -> Option<(Temp, LState, Seq<BlockV>)>
    decreases e,
{
    if cur < 0 || cur >= bs.len() {
        None
    } else {
        match e {
            ExprV::IntLiteral(v) => match new_temp_spec(st, Type::Int) {
                Some((dst, st1)) => Some((dst, st1, push_instr_spec(bs, cur, InstrV::ConstInt { dst, value: v as i128 }))),
                None => None,
            },
            ExprV::BoolLiteral(v) => match new_temp_spec(st, Type::Bool) {
                Some((dst, st1)) => Some((dst, st1, push_instr_spec(bs, cur, InstrV::ConstBool { dst, value: v }))),
                None => None,
            },
            ExprV::Ident(name) => match var_id_spec(st, name) {
                Some((id, st1)) => if st1.symbols.contains_key(id.0) {
                    match new_temp_spec(st1, st1.symbols[id.0]) {
                        Some((dst, st2)) => Some((dst, st2, push_instr_spec(bs, cur, InstrV::Load { dst, id }))),
                        None => None,
                    }
                } else {
                    None
                },
                None => None,
            },
            ExprV::BinaryOp { left, op, right } => match lower_expr_spec(st, bs, *left, cur) {
                Some((l, st1, bs1)) => match lower_expr_spec(st1, bs1, *right, cur) {
                    Some((r, st2, bs2)) => if l.ty != r.ty {
                        None
                    } else {
                        match binop_result(op, l.ty) {
                            Some(dty) => match new_temp_spec(st2, dty) {
                                Some((dst, st3)) => if is_integer_spec(l.ty) {
                                    Some((dst, st3, push_instr_spec(bs2, cur, binop_instr(op, dst, l, r))))
                                } else {
                                    None
                                },
                                None => None,
                            },
                            None => None,
                        }
                    },
                    None => None,
                },
                None => None,
            },
            _ => None,
        }
    }
}

/// The expressions of a `print` from index `i` on, each lowered and
/// printed.
pub open spec fn lower_prints_spec(st: LState, bs: Seq<BlockV>, es: Seq<ExprV>, i: int, cur: int) -> Option<
    (LState, Seq<BlockV>),
>
    decreases es.len() - i,
{
    if i < 0 || i >= es.len() {
        Some((st, bs))
    } else {
        match lower_expr_spec(st, bs, es[i], cur) {
            Some((t, st1, bs1)) => lower_prints_spec(st1, push_instr_spec(bs1, cur, InstrV::Print { temp: t }), es, i + 1, cur),
            None => None,
        }
    }
}

/// A statement lowered into block `cur`: the block lowering continues in,
/// the state and the blocks after. `None` where lowering stops: a
/// statement other than a declaration, an assignment, a `print`, an `if`
/// or a `return`, or an expression that stops it.
pub open spec fn lower_stmt_spec(st: LState, bs: Seq<BlockV>, s: StmtV, cur: int) -> Option<(int, LState, Seq<BlockV>)>
    decreases s, 1nat,
{
    match s {
        StmtV::VarDecl { name, value, .. } => match lower_expr_spec(st, bs, value, cur) {
            Some((val, st1, bs1)) => match var_id_spec(st1, name) {
                Some((id, st2)) => Some((
                    cur,
                    LState { symbols: st2.symbols.insert(id.0, val.ty), ..st2 },
                    push_instr_spec(bs1, cur, InstrV::Store { var: id, src: val }),
                )),
                None => None,
            },
            None => None,
        },
        StmtV::Assignment { target, value } => match lower_expr_spec(st, bs, value, cur) {
            Some((val, st1, bs1)) => match var_id_spec(st1, target) {
                Some((id, st2)) => Some((cur, st2, push_instr_spec(bs1, cur, InstrV::Store { var: id, src: val }))),
                None => None,
            },
            None => None,
        },
        StmtV::Print(es) => match lower_prints_spec(st, bs, es, 0, cur) {
            Some((st1, bs1)) => Some((cur, st1, bs1)),
            None => None,
        },
        StmtV::IfStatement { .. } => lower_if_spec(st, bs, s, cur),
        StmtV::Return(e) => if cur < 0 || cur >= bs.len() {
            None
        } else if terminated(bs[cur]) {
            Some((cur, st, bs))
        } else {
            match lower_expr_spec(st, bs, e, cur) {
                Some((val, st1, bs1)) => Some((cur, st1, push_instr_spec(bs1, cur, InstrV::Return(Some(val))))),
                None => None,
            }
        },
        _ => None,
    }
}

/// A jump to `target` appended to block `b` unless it is terminated.
pub open spec fn close_block(bs: Seq<BlockV>, b: int, target: Label) -> Seq<BlockV> {
    if terminated(bs[b]) { bs } else { push_instr_spec(bs, b, InstrV::Jump(target)) }
}

/// `if`: nothing where block `cur` is terminated; otherwise the condition
/// is lowered into `cur`, three blocks are added (then, else, and the one
/// after), `cur` jumps to the else block when the condition is false and to
/// the then block otherwise, each branch is lowered into its block and,
/// unless it ends terminated, jumps to the block after, where lowering
/// continues.
pub open spec fn lower_if_spec(st: LState, bs: Seq<BlockV>, s: StmtV, cur: int) -> Option<(int, LState, Seq<BlockV>)>
    decreases s, 0nat,
{
    match s {
        StmtV::IfStatement { condition, then_branch, else_branch } => if cur < 0 || cur >= bs.len() {
            None
        } else if terminated(bs[cur]) {
            Some((cur, st, bs))
        } else {
            match lower_expr_spec(st, bs, condition, cur) {
                Some((cond, st1, bs1)) => match new_block_spec(st1, bs1) {
                    Some((tb, st2, bs2)) => match new_block_spec(st2, bs2) {
                        Some((eb, st3, bs3)) => match new_block_spec(st3, bs3) {
                            Some((cb, st4, bs4)) => {
                                let bs5 = push_instr_spec(
                                    push_instr_spec(bs4, cur, InstrV::JumpIfFalse { cond, label: bs4[eb].label }),
                                    cur,
                                    InstrV::Jump(bs4[tb].label),
                                );
                                match lower_stmts_spec(st4, bs5, then_branch, 0, tb) {
                                    Some((tc, st6, bs6)) => {
                                        let bs7 = close_block(bs6, tc, bs6[cb].label);
                                        match else_branch {
                                            Some(b) => match lower_stmts_spec(st6, bs7, b, 0, eb) {
                                                Some((ec, st8, bs8)) => Some((cb, st8, close_block(bs8, ec, bs8[cb].label))),
                                                None => None,
                                            },
                                            None => Some((cb, st6, close_block(bs7, eb, bs7[cb].label))),
                                        }
                                    },
                                    None => None,
                                }
                            },
                            None => None,
                        },
                        None => None,
                    },
                    None => None,
                },
                None => None,
            }
        },
        _ => None,
    }
}

/// The statements of `ss` from index `i` on, lowered in turn from block
/// `cur`.
pub open spec fn lower_stmts_spec(st: LState, bs: Seq<BlockV>, ss: Seq<StmtV>, i: int, cur: int) -> Option<
    (int, LState, Seq<BlockV>),
>
    decreases ss, ss.len() - i,
{
    if i < 0 || i >= ss.len() {
        Some((cur, st, bs))
    } else {
        match lower_stmt_spec(st, bs, ss[i], cur) {
            Some((c, st1, bs1)) => lower_stmts_spec(st1, bs1, ss, i + 1, c),
            None => None,
        }
    }
}

/// A whole program as one function: a first block, then every statement
/// lowered in turn.
pub open spec fn lower_program_spec(st: LState, ss: Seq<StmtV>) -> Option<(Seq<BlockV>, LState)> {
    match new_block_spec(st, Seq::empty()) {
        Some((b0, st1, bs1)) => match lower_stmts_spec(st1, bs1, ss, 0, b0) {
            Some((_, st2, bs2)) => Some((bs2, st2)),
            None => None,
        },
        None => None,
    }
}

// ---------------------------------------------------------------------
// Lowering
// ---------------------------------------------------------------------

/// Appends `instr` to block `cur`.
fn push_instr(blocks: &mut Vec<BasicBlock>, cur: usize, instr: Instr)
    requires
        cur < old(blocks)@.len(),
    ensures
        blocks_view(final(blocks)@) == push_instr_spec(blocks_view(old(blocks)@), cur as int, instr.view()),
        final(blocks)@.len() == old(blocks)@.len(),
{
    let ghost iv = instr.view();
    let mut block = blocks.remove(cur);
    block.instructions.push(instr);
    blocks.insert(cur, block);
    assert(block.view().instructions =~= blocks_view(old(blocks)@)[cur as int].instructions.push(iv));
    assert(blocks_view(blocks@) =~= push_instr_spec(blocks_view(old(blocks)@), cur as int, iv));
}

fn find_var_exec(table: &Vec<(String, VarId)>, name: &String) -> (r: Option<VarId>)
    ensures
        r == find_var(table@, name@, 0),
{
    let mut i: usize = 0;
    while i < table.len()
        invariant
            i <= table@.len(),
            find_var(table@, name@, 0) == find_var(table@, name@, i as int),
        decreases table.len() - i,
    {
        if table[i].0 == *name {
            return Some(table[i].1);
        }
        i += 1;
    }
    None
}

impl Lowering {
    pub fn new() -> (r: Self)
        ensures
            r@ == initial_lstate(),
    {
        Self { temp_counter: 0, label_counter: 0, symbols: HashMap::new(), var_table: Vec::new(), next_var_id: 0 }
    }

    fn block_terminated(block: &BasicBlock) -> (r: bool)
        ensures
            r == terminated(block.view()),
    {
        let n = block.instructions.len();
        if n == 0 {
            return false;
        }
        matches!(block.instructions[n - 1], Instr::Return(_) | Instr::Jump(_) | Instr::JumpIfFalse { .. })
    }

    fn new_temp(&mut self, ty: Type) -> (r: Temp)
        requires
            old(self).temp_counter < usize::MAX,
        ensures
            new_temp_spec(old(self)@, ty) == Some((r, final(self)@)),
    {
        let t = Temp::new(self.temp_counter, ty);
        self.temp_counter = self.temp_counter + 1;
        t
    }

    fn new_label(&mut self) -> (r: Label)
        requires
            old(self).label_counter < usize::MAX,
        ensures
            r == Label(old(self).label_counter),
            final(self)@ == (LState { label_counter: old(self)@.label_counter + 1, ..old(self)@ }),
    {
        let label = Label(self.label_counter);
        self.label_counter = self.label_counter + 1;
        label
    }

    fn new_block(&mut self, blocks: &mut Vec<BasicBlock>) -> (r: usize)
        requires
            old(self).label_counter < usize::MAX,
        ensures
            new_block_spec(old(self)@, blocks_view(old(blocks)@)) == Some(
                (r as int, final(self)@, blocks_view(final(blocks)@)),
            ),
            final(blocks)@.len() == old(blocks)@.len() + 1,
            r == old(blocks)@.len(),
    {
        let label = self.new_label();
        let idx = blocks.len();
        let nb = BasicBlock { label, instructions: Vec::new() };
        assert(nb.view().instructions =~= Seq::<InstrV>::empty());
        blocks.push(nb);
        assert(blocks_view(blocks@) =~= blocks_view(old(blocks)@).push(
            BlockV { label, instructions: Seq::empty() },
        ));
        idx
    }

    fn get_var_id(&mut self, name: &String) -> (r: VarId)
        requires
            find_var(old(self)@.var_table, name@, 0) is Some || old(self).next_var_id < usize::MAX,
        ensures
            var_id_spec(old(self)@, *name) == Some((r, final(self)@)),
    {
        if let Some(id) = find_var_exec(&self.var_table, name) {
            id
        } else {
            let id = VarId(self.next_var_id);
            self.next_var_id = self.next_var_id + 1;
            self.var_table.push((name.clone(), id));
            id
        }
    }

    fn lower_expr_opt(&mut self, expr: &Expr, cur_block: usize, blocks: &mut Vec<BasicBlock>) -> (r: Option<Temp>)
        ensures
            match lower_expr_spec(old(self)@, blocks_view(old(blocks)@), expr.view(), cur_block as int) {
                None => r is None,
                Some((t, st, bs)) => r == Some(t) && final(self)@ == st && blocks_view(final(blocks)@) == bs
                    && final(blocks)@.len() == old(blocks)@.len(),
            },
        decreases expr,
    {
        proof {
            reveal(Expr::view);
        }
        if cur_block >= blocks.len() {
            return None;
        }
        match expr {
            Expr::IntLiteral(v) => {
                if self.temp_counter == usize::MAX {
                    return None;
                }
                let dst = self.new_temp(Type::Int);
                push_instr(blocks, cur_block, Instr::ConstInt { dst: dst.clone(), value: *v as i128 });
                Some(dst)
            },
            Expr::BoolLiteral(v) => {
                if self.temp_counter == usize::MAX {
                    return None;
                }
                let dst = self.new_temp(Type::Bool);
                push_instr(blocks, cur_block, Instr::ConstBool { dst: dst.clone(), value: *v });
                Some(dst)
            },
            Expr::Ident(name) => {
                if find_var_exec(&self.var_table, name).is_none() && self.next_var_id == usize::MAX {
                    return None;
                }
                let var_id = self.get_var_id(name);
                let ty = match self.symbols.get(&var_id.0) {
                    Some(t) => t.clone(),
                    None => {
                        return None;
                    },
                };
                if self.temp_counter == usize::MAX {
                    return None;
                }
                let dst = self.new_temp(ty);
                push_instr(blocks, cur_block, Instr::Load { dst: dst.clone(), id: var_id });
                Some(dst)
            },
            Expr::BinaryOp { left, op, right } => {
                let l = self.lower_expr_opt(left, cur_block, blocks)?;
                let r = self.lower_expr_opt(right, cur_block, blocks)?;
                if !l.ty.same(&r.ty) {
                    return None;
                }
                let dst_ty = match op {
                    BinOp::Add | BinOp::Sub | BinOp::Mul | BinOp::Div => l.ty.clone(),
                    BinOp::Greater | BinOp::Less | BinOp::GreaterEqual | BinOp::LessEqual => Type::Bool,
                    _ => {
                        return None;
                    },
                };
                if self.temp_counter == usize::MAX {
                    return None;
                }
                let dst = self.new_temp(dst_ty);
                let is_int = match &l.ty {
                    Type::Int | Type::UInt | Type::I8 | Type::I16 | Type::I32 | Type::I64 | Type::I128 | Type::U8
                    | Type::U16 | Type::U32 | Type::U64 | Type::U128 => true,
                    _ => false,
                };
                if !is_int {
                    return None;
                }
                let instr = match op {
                    BinOp::Add => Instr::Add { dst: dst.clone(), lhs: l, rhs: r },
                    BinOp::Sub => Instr::Sub { dst: dst.clone(), lhs: l, rhs: r },
                    BinOp::Mul => Instr::Mul { dst: dst.clone(), lhs: l, rhs: r },
                    BinOp::Div => Instr::Div { dst: dst.clone(), lhs: l, rhs: r },
                    BinOp::Greater => Instr::Greater { dst: dst.clone(), lhs: l, rhs: r },
                    BinOp::GreaterEqual => Instr::GreaterEq { dst: dst.clone(), lhs: l, rhs: r },
                    BinOp::Less => Instr::Less { dst: dst.clone(), lhs: l, rhs: r },
                    _ => Instr::LessEq { dst: dst.clone(), lhs: l, rhs: r },
                };
                push_instr(blocks, cur_block, instr);
                Some(dst)
            },
            _ => None,
        }
    }

    /// Lowers an expression into block `cur_block` and gives the temporary
    /// holding its value.
    pub fn lower_expr(&mut self, expr: &Expr, cur_block: usize, blocks: &mut Vec<BasicBlock>) -> (r: Temp)
        requires
            lower_expr_spec(old(self)@, blocks_view(old(blocks)@), expr.view(), cur_block as int) is Some,
        ensures
            lower_expr_spec(old(self)@, blocks_view(old(blocks)@), expr.view(), cur_block as int) == Some(
                (r, final(self)@, blocks_view(final(blocks)@)),
            ),
    {
        match self.lower_expr_opt(expr, cur_block, blocks) {
            Some(t) => t,
            None => {
                proof {
                    assert(false);
                }
                Temp::new(0, Type::Void)
            },
        }
    }
}

/// The outcome of lowering statements matches `spec`: `None` exactly when
/// lowering stops; otherwise the block lowering continues in (still a block
/// when `cur` was one), the state and the blocks.
pub open spec fn lowered_as(
    r: Option<usize>,
    spec: Option<(int, LState, Seq<BlockV>)>,
    cur: usize,
    old_len: nat,
    new_self: LState,
    new_blocks: Seq<BasicBlock>,
) -> bool {
    match spec {
        None => r is None,
        Some((c, st, bs)) => r matches Some(x) && x as int == c && new_self == st && blocks_view(new_blocks) == bs
            && new_blocks.len() >= old_len && (cur < old_len ==> x < new_blocks.len()),
    }
}

impl Lowering {
    fn lower_prints_opt(&mut self, exprs: &Vec<Expr>, cur_block: usize, blocks: &mut Vec<BasicBlock>) -> (r: bool)
        ensures
            match lower_prints_spec(old(self)@, blocks_view(old(blocks)@), exprs_view(exprs@), 0, cur_block as int) {
                None => !r,
                Some((st, bs)) => r && final(self)@ == st && blocks_view(final(blocks)@) == bs
                    && final(blocks)@.len() == old(blocks)@.len(),
            },
    {
        let ghost ev = exprs_view(exprs@);
        let ghost goal = lower_prints_spec(old(self)@, blocks_view(old(blocks)@), ev, 0, cur_block as int);
        let mut i: usize = 0;
        while i < exprs.len()
            invariant
                i <= exprs@.len(),
                ev == exprs_view(exprs@),
                goal == lower_prints_spec(self@, blocks_view(blocks@), ev, i as int, cur_block as int),
                goal == lower_prints_spec(old(self)@, blocks_view(old(blocks)@), ev, 0, cur_block as int),
                blocks@.len() == old(blocks)@.len(),
            decreases exprs.len() - i,
        {
            assert(ev[i as int] == exprs@[i as int].view());
            let ghost st0 = self@;
            let ghost bs0 = blocks_view(blocks@);
            match self.lower_expr_opt(&exprs[i], cur_block, blocks) {
                Some(temp) => {
                    push_instr(blocks, cur_block, Instr::Print { temp });
                },
                None => {
                    assert(lower_expr_spec(st0, bs0, ev[i as int], cur_block as int) is None);
                    assert(lower_prints_spec(st0, bs0, ev, i as int, cur_block as int) is None);
                    return false;
                },
            }
            i += 1;
        }
        true
    }

    fn lower_stmt_opt(&mut self, stmt: &Stmt, cur_block: usize, blocks: &mut Vec<BasicBlock>) -> (r: Option<usize>)
        ensures
            lowered_as(
                r,
                lower_stmt_spec(old(self)@, blocks_view(old(blocks)@), stmt.view(), cur_block as int),
                cur_block,
                old(blocks)@.len(),
                final(self)@,
                final(blocks)@,
            ),
        decreases stmt, 2nat,
    {
        match stmt {
            Stmt::VarDecl(var) => {
                proof {
                    lemma_simple_stmt_views(var.name, var.ty, var.value, var.mutability, BinOp::Add);
                }
                let val = self.lower_expr_opt(&var.value, cur_block, blocks)?;
                if find_var_exec(&self.var_table, &var.name).is_none() && self.next_var_id == usize::MAX {
                    return None;
                }
                let var_id = self.get_var_id(&var.name);
                self.symbols.insert(var_id.0, val.ty.clone());
                push_instr(blocks, cur_block, Instr::Store { var: var_id, src: val });
                Some(cur_block)
            },
            Stmt::Assignment(assign) => {
                proof {
                    lemma_simple_stmt_views(assign.target, Type::Int, assign.value, Mutability::Const, BinOp::Add);
                }
                let val = self.lower_expr_opt(&assign.value, cur_block, blocks)?;
                if find_var_exec(&self.var_table, &assign.target).is_none() && self.next_var_id == usize::MAX {
                    return None;
                }
                let var_id = self.get_var_id(&assign.target);
                push_instr(blocks, cur_block, Instr::Store { var: var_id, src: val });
                Some(cur_block)
            },
            Stmt::Print(exprs) => {
                proof {
                    lemma_print_view(*exprs);
                }
                if self.lower_prints_opt(exprs, cur_block, blocks) {
                    Some(cur_block)
                } else {
                    None
                }
            },
            Stmt::IfStatement(if_stmt) => {
                proof {
                    lemma_if_view(*if_stmt);
                }
                self.lower_if_opt(if_stmt, cur_block, blocks)
            },
            Stmt::Return(expr) => {
                proof {
                    lemma_simple_stmt_views(arbitrary(), Type::Int, *expr, Mutability::Const, BinOp::Add);
                }
                if cur_block >= blocks.len() {
                    return None;
                }
                if Self::block_terminated(&blocks[cur_block]) {
                    return Some(cur_block);
                }
                let val = self.lower_expr_opt(expr, cur_block, blocks)?;
                push_instr(blocks, cur_block, Instr::Return(Some(val)));
                Some(cur_block)
            },
            _ => {
                proof {
                    reveal(Stmt::view);
                }
                None
            },
        }
    }

    fn lower_if_opt(&mut self, if_stmt: &IfStatement, cur_block: usize, blocks: &mut Vec<BasicBlock>) -> (r: Option<
        usize,
    >)
        ensures
            lowered_as(
                r,
                lower_stmt_spec(
                    old(self)@,
                    blocks_view(old(blocks)@),
                    StmtV::IfStatement {
                        condition: if_stmt.condition.view(),
                        then_branch: stmts_view(if_stmt.then_branch@),
                        else_branch: opt_block_view(if_stmt.else_branch),
                    },
                    cur_block as int,
                ),
                cur_block,
                old(blocks)@.len(),
                final(self)@,
                final(blocks)@,
            ),
        decreases if_stmt, 1nat,
    {
        if cur_block >= blocks.len() {
            return None;
        }
        if Self::block_terminated(&blocks[cur_block]) {
            return Some(cur_block);
        }
        let cond = self.lower_expr_opt(&if_stmt.condition, cur_block, blocks)?;
        if self.label_counter == usize::MAX {
            return None;
        }
        let then_block = self.new_block(blocks);
        if self.label_counter == usize::MAX {
            return None;
        }
        let else_block = self.new_block(blocks);
        if self.label_counter == usize::MAX {
            return None;
        }
        let cont_block = self.new_block(blocks);
        let else_label = blocks[else_block].label;
        let then_label = blocks[then_block].label;
        push_instr(blocks, cur_block, Instr::JumpIfFalse { cond, label: else_label });
        push_instr(blocks, cur_block, Instr::Jump(then_label));
        let then_cur = self.lower_stmts_opt(&if_stmt.then_branch, then_block, blocks)?;
        let cont_label = blocks[cont_block].label;
        if !Self::block_terminated(&blocks[then_cur]) {
            push_instr(blocks, then_cur, Instr::Jump(cont_label));
        }
        let mut else_cur = else_block;
        if let Some(else_branch) = &if_stmt.else_branch {
            else_cur = self.lower_stmts_opt(else_branch, else_block, blocks)?;
        }
        if !Self::block_terminated(&blocks[else_cur]) {
            let cont_label = blocks[cont_block].label;
            push_instr(blocks, else_cur, Instr::Jump(cont_label));
        }
        Some(cont_block)
    }

    fn lower_stmts_opt(&mut self, stmts: &Vec<Stmt>, cur_block: usize, blocks: &mut Vec<BasicBlock>) -> (r: Option<
        usize,
    >)
        ensures
            lowered_as(
                r,
                lower_stmts_spec(old(self)@, blocks_view(old(blocks)@), stmts_view(stmts@), 0, cur_block as int),
                cur_block,
                old(blocks)@.len(),
                final(self)@,
                final(blocks)@,
            ),
        decreases stmts, 0nat,
    {
        let ghost sv = stmts_view(stmts@);
        let ghost goal = lower_stmts_spec(old(self)@, blocks_view(old(blocks)@), sv, 0, cur_block as int);
        let mut cur = cur_block;
        let mut i: usize = 0;
        while i < stmts.len()
            invariant
                i <= stmts@.len(),
                sv == stmts_view(stmts@),
                goal == lower_stmts_spec(self@, blocks_view(blocks@), sv, i as int, cur as int),
                goal == lower_stmts_spec(old(self)@, blocks_view(old(blocks)@), sv, 0, cur_block as int),
                blocks@.len() >= old(blocks)@.len(),
                cur_block < old(blocks)@.len() ==> cur < blocks@.len(),
            decreases stmts.len() - i,
        {
            assert(sv[i as int] == stmts@[i as int].view());
            let ghost st0 = self@;
            let ghost bs0 = blocks_view(blocks@);
            match self.lower_stmt_opt(&stmts[i], cur, blocks) {
                Some(c) => {
                    cur = c;
                },
                None => {
                    assert(lower_stmt_spec(st0, bs0, sv[i as int], cur as int) is None);
                    assert(lower_stmts_spec(st0, bs0, sv, i as int, cur as int) is None);
                    return None;
                },
            }
            i += 1;
        }
        Some(cur)
    }

    /// Lowers a statement starting in block `cur_block` and gives the block
    /// lowering continues in.
    pub fn lower_stmt(&mut self, stmt: &Stmt, cur_block: usize, blocks: &mut Vec<BasicBlock>) -> (r: usize)
        requires
            lower_stmt_spec(old(self)@, blocks_view(old(blocks)@), stmt.view(), cur_block as int) is Some,
        ensures
            lower_stmt_spec(old(self)@, blocks_view(old(blocks)@), stmt.view(), cur_block as int) == Some(
                (r as int, final(self)@, blocks_view(final(blocks)@)),
            ),
    {
        match self.lower_stmt_opt(stmt, cur_block, blocks) {
            Some(c) => c,
            None => {
                proof {
                    assert(false);
                }
                0
            },
        }
    }

    /// Lowers a program to one function named `name`; `None` where lowering
    /// stops.
    pub fn try_lower_program(&mut self, stmts: &[Stmt], name: &str) -> (r: Option<IRProgram>)
        ensures
            match lower_program_spec(old(self)@, stmts_view(stmts@)) {
                None => r is None,
                Some((bs, st)) => r matches Some(p) && p.functions@.len() == 1 && p.functions@[0].name@ == name@
                    && blocks_view(p.functions@[0].blocks@) == bs && final(self)@ == st,
            },
    {
        let mut blocks: Vec<BasicBlock> = Vec::new();
        assert(blocks_view(blocks@) =~= Seq::<BlockV>::empty());
        if self.label_counter == usize::MAX {
            return None;
        }
        let mut cur = self.new_block(&mut blocks);
        let ghost sv = stmts_view(stmts@);
        let ghost goal = lower_stmts_spec(self@, blocks_view(blocks@), sv, 0, cur as int);
        assert(lower_program_spec(old(self)@, sv) == match goal {
            Some((_, st2, bs2)) => Some((bs2, st2)),
            None => None,
        });
        let mut i: usize = 0;
        while i < stmts.len()
            invariant
                i <= stmts@.len(),
                sv == stmts_view(stmts@),
                goal == lower_stmts_spec(self@, blocks_view(blocks@), sv, i as int, cur as int),
                lower_program_spec(old(self)@, sv) == match goal {
                    Some((_, st2, bs2)) => Some((bs2, st2)),
                    None => None,
                },
            decreases stmts.len() - i,
        {
            assert(sv[i as int] == stmts@[i as int].view());
            let ghost st0 = self@;
            let ghost bs0 = blocks_view(blocks@);
            match self.lower_stmt_opt(&stmts[i], cur, &mut blocks) {
                Some(c) => {
                    cur = c;
                },
                None => {
                    assert(lower_stmt_spec(st0, bs0, sv[i as int], cur as int) is None);
                    assert(lower_stmts_spec(st0, bs0, sv, i as int, cur as int) is None);
                    return None;
                },
            }
            i += 1;
        }
        let func = FunctionIR { name: name.to_owned(), blocks };
        let mut functions: Vec<FunctionIR> = Vec::new();
        functions.push(func);
        Some(IRProgram { functions })
    }

    /// Lowers a program to one function named `name`.
    pub fn lower_program(&mut self, stmts: &[Stmt], name: &str) -> (r: IRProgram)
        requires
            lower_program_spec(old(self)@, stmts_view(stmts@)) is Some,
        ensures
            ({
                let (bs, st) = lower_program_spec(old(self)@, stmts_view(stmts@)).unwrap();
                &&& r.functions@.len() == 1
                &&& r.functions@[0].name@ == name@
                &&& blocks_view(r.functions@[0].blocks@) == bs
                &&& final(self)@ == st
            }),
    {
        match self.try_lower_program(stmts, name) {
            Some(p) => p,
            None => {
                proof {
                    assert(false);
                }
                IRProgram { functions: Vec::new() }
            },
        }
    }
}

// ---------------------------------------------------------------------
// Laws
// ---------------------------------------------------------------------

/// Lowering an expression puts its value in a fresh temporary: one numbered
/// from the counter at the start, below the counter at the end. No block or
/// label is added, and numbers already given to names stay.
pub proof fn law_expr_value_in_fresh_temp(st: LState, bs: Seq<BlockV>, e: ExprV, cur: int)
    requires
        lower_expr_spec(st, bs, e, cur) is Some,
    ensures
        ({
            let (t, st1, bs1) = lower_expr_spec(st, bs, e, cur).unwrap();
            &&& st.temp_counter <= t.id < st1.temp_counter
            &&& st1.label_counter == st.label_counter
            &&& bs1.len() == bs.len()
            &&& st.var_table.len() <= st1.var_table.len()
            &&& st1.var_table.subrange(0, st.var_table.len() as int) == st.var_table
        }),
    decreases e,
{
    assert(st.var_table.subrange(0, st.var_table.len() as int) =~= st.var_table);
    match e {
        ExprV::BinaryOp { left, op, right } => {
            law_expr_value_in_fresh_temp(st, bs, *left, cur);
            let (l, st1, bs1) = lower_expr_spec(st, bs, *left, cur).unwrap();
            law_expr_value_in_fresh_temp(st1, bs1, *right, cur);
            let (r, st2, bs2) = lower_expr_spec(st1, bs1, *right, cur).unwrap();
            assert(st2.var_table.subrange(0, st.var_table.len() as int) =~= st2.var_table.subrange(
                0,
                st1.var_table.len() as int,
            ).subrange(0, st.var_table.len() as int));
        },
        ExprV::Ident(name) => {
            let (id, st1) = var_id_spec(st, name).unwrap();
            assert(st1.var_table.subrange(0, st.var_table.len() as int) =~= st.var_table);
        },
        _ => {},
    }
}

/// A statement lowered into a block that already ends in a return or a
/// jump adds nothing there: an `if` or a `return` is dropped.
pub proof fn law_nothing_after_terminator(st: LState, bs: Seq<BlockV>, s: StmtV, cur: int)
    requires
        0 <= cur < bs.len(),
        terminated(bs[cur]),
        s is IfStatement || s is Return,
    ensures
        lower_stmt_spec(st, bs, s, cur) == Some((cur, st, bs)),
{
}

/// The label a jump instruction goes to.
pub open spec fn jump_target(ins: InstrV) -> Option<Label> {
    match ins {
        InstrV::Jump(l) => Some(l),
        InstrV::JumpIfFalse { label, .. } => Some(label),
        _ => None,
    }
}

pub open spec fn jumps_within(ins: InstrV, lo: int, hi: int) -> bool {
    match jump_target(ins) {
        Some(l) => lo <= l.0 < hi,
        None => true,
    }
}

/// Blocks labelled in order from `base`, up to the next label `next`, with
/// every jump going to one of those labels.
pub open spec fn labels_from(bs: Seq<BlockV>, base: int, next: int) -> bool {
    &&& bs.len() == next - base
    &&& forall|i: int| 0 <= i < bs.len() ==> #[trigger] bs[i].label.0 == base + i
    &&& forall|i: int, k: int|
        0 <= i < bs.len() && 0 <= k < bs[i].instructions.len() ==> jumps_within(
            #[trigger] bs[i].instructions[k],
            base,
            next,
        )
}

proof fn lemma_push_labels(bs: Seq<BlockV>, base: int, next: int, cur: int, ins: InstrV)
    requires
        labels_from(bs, base, next),
        0 <= cur < bs.len(),
        jumps_within(ins, base, next),
    ensures
        labels_from(push_instr_spec(bs, cur, ins), base, next),
{
    let r = push_instr_spec(bs, cur, ins);
    assert forall|i: int| 0 <= i < r.len() implies #[trigger] r[i].label.0 == base + i by {
        if i != cur {
            assert(r[i] == bs[i]);
        }
    }
    assert forall|i: int, k: int| 0 <= i < r.len() && 0 <= k < r[i].instructions.len() implies jumps_within(
        #[trigger] r[i].instructions[k],
        base,
        next,
    ) by {
        if i != cur {
            assert(r[i] == bs[i]);
        } else if k < bs[cur].instructions.len() {
            assert(r[i].instructions[k] == bs[i].instructions[k]);
        }
    }
}

proof fn lemma_new_block_labels(st: LState, bs: Seq<BlockV>, base: int)
    requires
        labels_from(bs, base, st.label_counter),
    ensures
        new_block_spec(st, bs) matches Some((b, st1, bs1)) ==> {
            &&& labels_from(bs1, base, st1.label_counter)
            &&& b == bs.len()
            &&& st1.label_counter == st.label_counter + 1
        },
{
    if let Some((b, st1, bs1)) = new_block_spec(st, bs) {
        assert forall|i: int| 0 <= i < bs1.len() implies #[trigger] bs1[i].label.0 == base + i by {
            if i < bs.len() {
                assert(bs1[i] == bs[i]);
            }
        }
        assert forall|i: int, k: int| 0 <= i < bs1.len() && 0 <= k < bs1[i].instructions.len() implies jumps_within(
            #[trigger] bs1[i].instructions[k],
            base,
            st1.label_counter,
        ) by {
            assert(bs1[i] == bs[i]);
            assert(jumps_within(bs[i].instructions[k], base, st.label_counter));
        }
    }
}

proof fn lemma_expr_labels(st: LState, bs: Seq<BlockV>, e: ExprV, cur: int, base: int)
    requires
        labels_from(bs, base, st.label_counter),
    ensures
        lower_expr_spec(st, bs, e, cur) matches Some((t, st1, bs1)) ==> labels_from(bs1, base, st1.label_counter)
            && st1.label_counter == st.label_counter,
    decreases e,
{
    if 0 <= cur < bs.len() {
        match e {
            ExprV::IntLiteral(v) => {
                if let Some((dst, st1)) = new_temp_spec(st, Type::Int) {
                    lemma_push_labels(bs, base, st.label_counter, cur, InstrV::ConstInt { dst, value: v as i128 });
                }
            },
            ExprV::BoolLiteral(v) => {
                if let Some((dst, st1)) = new_temp_spec(st, Type::Bool) {
                    lemma_push_labels(bs, base, st.label_counter, cur, InstrV::ConstBool { dst, value: v });
                }
            },
            ExprV::Ident(name) => {
                if let Some((id, st1)) = var_id_spec(st, name) {
                    if st1.symbols.contains_key(id.0) {
                        if let Some((dst, st2)) = new_temp_spec(st1, st1.symbols[id.0]) {
                            lemma_push_labels(bs, base, st.label_counter, cur, InstrV::Load { dst, id });
                        }
                    }
                }
            },
            ExprV::BinaryOp { left, op, right } => {
                lemma_expr_labels(st, bs, *left, cur, base);
                if let Some((l, st1, bs1)) = lower_expr_spec(st, bs, *left, cur) {
                    law_expr_value_in_fresh_temp(st, bs, *left, cur);
                    lemma_expr_labels(st1, bs1, *right, cur, base);
                    if let Some((r, st2, bs2)) = lower_expr_spec(st1, bs1, *right, cur) {
                        law_expr_value_in_fresh_temp(st1, bs1, *right, cur);
                        if let Some(dty) = binop_result(op, l.ty) {
                            if let Some((dst, st3)) = new_temp_spec(st2, dty) {
                                lemma_push_labels(bs2, base, st.label_counter, cur, binop_instr(op, dst, l, r));
                            }
                        }
                    }
                }
            },
            _ => {},
        }
    }
}

proof fn lemma_prints_labels(st: LState, bs: Seq<BlockV>, es: Seq<ExprV>, i: int, cur: int, base: int)
    requires
        labels_from(bs, base, st.label_counter),
    ensures
        lower_prints_spec(st, bs, es, i, cur) matches Some((st1, bs1)) ==> labels_from(bs1, base, st1.label_counter)
            && st1.label_counter == st.label_counter,
    decreases es.len() - i,
{
    if 0 <= i < es.len() {
        lemma_expr_labels(st, bs, es[i], cur, base);
        if let Some((t, st1, bs1)) = lower_expr_spec(st, bs, es[i], cur) {
            law_expr_value_in_fresh_temp(st, bs, es[i], cur);
            lemma_push_labels(bs1, base, st1.label_counter, cur, InstrV::Print { temp: t });
            lemma_prints_labels(st1, push_instr_spec(bs1, cur, InstrV::Print { temp: t }), es, i + 1, cur, base);
        }
    }
}

proof fn lemma_close_labels(bs: Seq<BlockV>, b: int, target: Label, base: int, next: int)
    requires
        labels_from(bs, base, next),
        0 <= b < bs.len(),
        base <= target.0 < next,
    ensures
        labels_from(close_block(bs, b, target), base, next),
{
    if !terminated(bs[b]) {
        lemma_push_labels(bs, base, next, b, InstrV::Jump(target));
    }
}

proof fn lemma_stmt_labels(st: LState, bs: Seq<BlockV>, s: StmtV, cur: int, base: int)
    requires
        labels_from(bs, base, st.label_counter),
        0 <= cur < bs.len(),
    ensures
        lower_stmt_spec(st, bs, s, cur) matches Some((c, st1, bs1)) ==> {
            &&& labels_from(bs1, base, st1.label_counter)
            &&& 0 <= c < bs1.len()
            &&& st.label_counter <= st1.label_counter
        },
    decreases s, 1nat,
{
    match s {
        StmtV::VarDecl { name, value, .. } => {
            lemma_expr_labels(st, bs, value, cur, base);
            if let Some((val, st1, bs1)) = lower_expr_spec(st, bs, value, cur) {
                law_expr_value_in_fresh_temp(st, bs, value, cur);
                if let Some((id, st2)) = var_id_spec(st1, name) {
                    lemma_push_labels(bs1, base, st1.label_counter, cur, InstrV::Store { var: id, src: val });
                }
            }
        },
        StmtV::Assignment { target, value } => {
            lemma_expr_labels(st, bs, value, cur, base);
            if let Some((val, st1, bs1)) = lower_expr_spec(st, bs, value, cur) {
                law_expr_value_in_fresh_temp(st, bs, value, cur);
                if let Some((id, st2)) = var_id_spec(st1, target) {
                    lemma_push_labels(bs1, base, st1.label_counter, cur, InstrV::Store { var: id, src: val });
                }
            }
        },
        StmtV::Print(es) => {
            lemma_prints_labels(st, bs, es, 0, cur, base);
        },
        StmtV::IfStatement { .. } => {
            lemma_if_labels(st, bs, s, cur, base);
        },
        StmtV::Return(e) => {
            if !terminated(bs[cur]) {
                lemma_expr_labels(st, bs, e, cur, base);
                if let Some((val, st1, bs1)) = lower_expr_spec(st, bs, e, cur) {
                    law_expr_value_in_fresh_temp(st, bs, e, cur);
                    lemma_push_labels(bs1, base, st1.label_counter, cur, InstrV::Return(Some(val)));
                }
            }
        },
        _ => {},
    }
}

proof fn lemma_if_labels(st: LState, bs: Seq<BlockV>, s: StmtV, cur: int, base: int)
    requires
        labels_from(bs, base, st.label_counter),
        0 <= cur < bs.len(),
    ensures
        lower_if_spec(st, bs, s, cur) matches Some((c, st1, bs1)) ==> {
            &&& labels_from(bs1, base, st1.label_counter)
            &&& 0 <= c < bs1.len()
            &&& st.label_counter <= st1.label_counter
        },
    decreases s, 0nat,
{
    match s {
        StmtV::IfStatement { condition, then_branch, else_branch } => {
            if !terminated(bs[cur]) {
                lemma_expr_labels(st, bs, condition, cur, base);
                if let Some((cond, st1, bs1)) = lower_expr_spec(st, bs, condition, cur) {
                    law_expr_value_in_fresh_temp(st, bs, condition, cur);
                    lemma_new_block_labels(st1, bs1, base);
                    if let Some((tb, st2, bs2)) = new_block_spec(st1, bs1) {
                        lemma_new_block_labels(st2, bs2, base);
                        if let Some((eb, st3, bs3)) = new_block_spec(st2, bs2) {
                            lemma_new_block_labels(st3, bs3, base);
                            if let Some((cb, st4, bs4)) = new_block_spec(st3, bs3) {
                                let n = st4.label_counter;
                                let i1 = InstrV::JumpIfFalse { cond, label: bs4[eb].label };
                                lemma_push_labels(bs4, base, n, cur, i1);
                                let bs4a = push_instr_spec(bs4, cur, i1);
                                lemma_push_labels(bs4a, base, n, cur, InstrV::Jump(bs4[tb].label));
                                let bs5 = push_instr_spec(bs4a, cur, InstrV::Jump(bs4[tb].label));
                                lemma_stmts_labels(st4, bs5, then_branch, 0, tb, base);
                                if let Some((tc, st6, bs6)) = lower_stmts_spec(st4, bs5, then_branch, 0, tb) {
                                    lemma_close_labels(bs6, tc, bs6[cb].label, base, st6.label_counter);
                                    let bs7 = close_block(bs6, tc, bs6[cb].label);
                                    match else_branch {
                                        Some(b) => {
                                            lemma_stmts_labels(st6, bs7, b, 0, eb, base);
                                            if let Some((ec, st8, bs8)) = lower_stmts_spec(st6, bs7, b, 0, eb) {
                                                lemma_close_labels(bs8, ec, bs8[cb].label, base, st8.label_counter);
                                            }
                                        },
                                        None => {
                                            lemma_close_labels(bs7, eb, bs7[cb].label, base, st6.label_counter);
                                        },
                                    }
                                }
                            }
                        }
                    }
                }
            }
        },
        _ => {},
    }
}

proof fn lemma_stmts_labels(st: LState, bs: Seq<BlockV>, ss: Seq<StmtV>, i: int, cur: int, base: int)
    requires
        labels_from(bs, base, st.label_counter),
        0 <= cur < bs.len(),
    ensures
        lower_stmts_spec(st, bs, ss, i, cur) matches Some((c, st1, bs1)) ==> {
            &&& labels_from(bs1, base, st1.label_counter)
            &&& 0 <= c < bs1.len()
            &&& st.label_counter <= st1.label_counter
        },
    decreases ss, ss.len() - i,
{
    if 0 <= i < ss.len() {
        lemma_stmt_labels(st, bs, ss[i], cur, base);
        if let Some((c, st1, bs1)) = lower_stmt_spec(st, bs, ss[i], cur) {
            lemma_stmts_labels(st1, bs1, ss, i + 1, c, base);
        }
    }
}

/// The blocks of a lowered program have pairwise distinct labels, numbered
/// from the label counter at the start and below the one at the end, and
/// every jump goes to the label of one of them.
pub proof fn law_lowered_labels(st: LState, ss: Seq<StmtV>)
    requires
        lower_program_spec(st, ss) is Some,
    ensures
        ({
            let (bs, st1) = lower_program_spec(st, ss).unwrap();
            &&& forall|i: int, j: int| 0 <= i < j < bs.len() ==> bs[i].label != bs[j].label
            &&& forall|i: int| 0 <= i < bs.len() ==> st.label_counter <= #[trigger] bs[i].label.0 < st1.label_counter
            &&& forall|i: int, k: int|
                0 <= i < bs.len() && 0 <= k < bs[i].instructions.len() && (jump_target(
                    #[trigger] bs[i].instructions[k],
                ) is Some) ==> exists|m: int|
                    0 <= m < bs.len() && #[trigger] bs[m].label == jump_target(bs[i].instructions[k])->0
        }),
{
    let base = st.label_counter;
    assert(labels_from(Seq::<BlockV>::empty(), base, base));
    lemma_new_block_labels(st, Seq::empty(), base);
    let (b0, st1, bs1) = new_block_spec(st, Seq::empty()).unwrap();
    lemma_stmts_labels(st1, bs1, ss, 0, b0, base);
    let (bs, st2) = lower_program_spec(st, ss).unwrap();
    assert forall|i: int, j: int| 0 <= i < j < bs.len() implies bs[i].label != bs[j].label by {
        assert(bs[i].label.0 == base + i);
        assert(bs[j].label.0 == base + j);
    }
    assert forall|i: int, k: int|
        0 <= i < bs.len() && 0 <= k < bs[i].instructions.len() && (jump_target(
            #[trigger] bs[i].instructions[k],
        ) is Some) implies exists|m: int|
        0 <= m < bs.len() && #[trigger] bs[m].label == jump_target(bs[i].instructions[k])->0 by {
        let l = jump_target(bs[i].instructions[k])->0;
        assert(jumps_within(bs[i].instructions[k], base, st2.label_counter));
        let m = l.0 - base;
        assert(bs[m].label.0 == l.0);
        assert(bs[m].label == l);
    }
}

/// Each source operator that lowering accepts becomes the IR instruction of
/// the same operator: whatever values the operand temporaries hold, the
/// instruction stores in the new temporary the value of the source
/// operation on them, and it reads its left and right operands in the
/// source's order.
pub proof fn law_operator_lowered_faithfully(op: BinOp, t: Type, dst: Temp, l: Temp, r: Temp, env: spec_fn(usize) -> int)
    requires
        binop_result(op, t) is Some,
    ensures
        dest(binop_instr(op, dst, l, r)) == Some(dst),
        instr_value(binop_instr(op, dst, l, r), env) == binop_value(op, env(l.id), env(r.id)),
{
}

/// `temps` with temporary `id` now holding `v`.
pub open spec fn set_temp(temps: spec_fn(usize) -> int, id: usize, v: int) -> spec_fn(usize) -> int {
    |x: usize| if x == id { v } else { temps(x) }
}

/// The values of the temporaries after running one instruction, with
/// variable number `n` holding `vars(n)`: a load copies its variable, an
/// instruction that computes a value stores it in its destination, and any
/// other leaves the temporaries as they were.
pub open spec fn run_step(i: InstrV, temps: spec_fn(usize) -> int, vars: spec_fn(usize) -> int) -> spec_fn(usize) -> int {
    match i {
        InstrV::Load { dst, id } => set_temp(temps, dst.id, vars(id.0)),
        _ => match (dest(i), instr_value(i, temps)) {
            (Some(d), Some(v)) => set_temp(temps, d.id, v),
            _ => temps,
        },
    }
}

/// The values of the temporaries after running `is` in order.
pub open spec fn run_instrs(is: Seq<InstrV>, temps: spec_fn(usize) -> int, vars: spec_fn(usize) -> int) -> spec_fn(usize) -> int
    decreases is.len(),
{
    if is.len() == 0 {
        temps
    } else {
        run_step(is.last(), run_instrs(is.drop_last(), temps, vars), vars)
    }
}

pub open spec fn var_number(id: VarId) -> usize {
    id.0
}

/// Each name the table numbers has the value that variable holds.
pub open spec fn names_match(table: Seq<(String, VarId)>, vars: spec_fn(usize) -> int, names: spec_fn(Seq<char>) -> int) -> bool {
    forall|name: Seq<char>|
        #[trigger] find_var(table, name, 0) is Some ==> vars(var_number(find_var(table, name, 0)->0)) == names(name)
}

proof fn lemma_run_concat(a: Seq<InstrV>, b: Seq<InstrV>, temps: spec_fn(usize) -> int, vars: spec_fn(usize) -> int)
    ensures
        run_instrs(a + b, temps, vars) == run_instrs(b, run_instrs(a, temps, vars), vars),
    decreases b.len(),
{
    if b.len() == 0 {
        assert(a + b =~= a);
    } else {
        assert((a + b).drop_last() =~= a + b.drop_last());
        assert((a + b).last() == b.last());
        lemma_run_concat(a, b.drop_last(), temps, vars);
    }
}

proof fn lemma_run_frame(is: Seq<InstrV>, temps: spec_fn(usize) -> int, vars: spec_fn(usize) -> int, c: int, x: usize)
    requires
        forall|k: int| 0 <= k < is.len() && (#[trigger] dest(is[k])) is Some ==> dest(is[k])->0.id >= c,
        x < c,
    ensures
        run_instrs(is, temps, vars)(x) == temps(x),
    decreases is.len(),
{
    if is.len() > 0 {
        assert(dest(is[is.len() - 1]) is Some ==> dest(is[is.len() - 1])->0.id >= c);
        lemma_run_frame(is.drop_last(), temps, vars, c, x);
    }
}

proof fn lemma_find_var_prefix(a: Seq<(String, VarId)>, b: Seq<(String, VarId)>, n: Seq<char>, i: int)
    requires
        a.len() <= b.len(),
        forall|k: int| 0 <= k < a.len() ==> #[trigger] b[k] == a[k],
        0 <= i,
    ensures
        find_var(a, n, i) is Some ==> find_var(b, n, i) == find_var(a, n, i),
    decreases a.len() - i,
{
    if i < a.len() {
        assert(b[i] == a[i]);
        lemma_find_var_prefix(a, b, n, i + 1);
    }
}

proof fn lemma_find_var_push(a: Seq<(String, VarId)>, entry: (String, VarId), n: Seq<char>, i: int)
    requires
        find_var(a, n, i) is None,
        entry.0@ == n,
        0 <= i <= a.len(),
    ensures
        find_var(a.push(entry), n, i) == Some(entry.1),
    decreases a.len() - i,
{
    if i < a.len() {
        assert(a.push(entry)[i] == a[i]);
        lemma_find_var_push(a, entry, n, i + 1);
    } else {
        assert(a.push(entry)[i] == entry);
    }
}

proof fn lemma_expr_runs(
    st: LState,
    bs: Seq<BlockV>,
    e: ExprV,
    cur: int,
    vars: spec_fn(usize) -> int,
    names: spec_fn(Seq<char>) -> int,
    temps: spec_fn(usize) -> int,
)
    requires
        lower_expr_spec(st, bs, e, cur) is Some,
    ensures
        ({
            let (t, st1, bs1) = lower_expr_spec(st, bs, e, cur)->0;
            let n0 = bs[cur].instructions.len() as int;
            let ins = bs1[cur].instructions;
            &&& 0 <= cur < bs.len()
            &&& n0 <= ins.len()
            &&& ins.subrange(0, n0) == bs[cur].instructions
            &&& forall|k: int|
                n0 <= k < ins.len() && (#[trigger] dest(ins[k])) is Some ==> st.temp_counter <= dest(ins[k])->0.id
                    < st1.temp_counter
            &&& (names_match(st1.var_table, vars, names) && source_value(e, names) is Some) ==> run_instrs(
                ins.subrange(n0, ins.len() as int),
                temps,
                vars,
            )(t.id) == source_value(e, names)->0
        }),
    decreases e,
{
    law_expr_value_in_fresh_temp(st, bs, e, cur);
    let (t, st1, bs1) = lower_expr_spec(st, bs, e, cur)->0;
    let n0 = bs[cur].instructions.len() as int;
    let ins = bs1[cur].instructions;
    match e {
        ExprV::BinaryOp { left, op, right } => {
            let (l, sl, bl) = lower_expr_spec(st, bs, *left, cur)->0;
            lemma_expr_runs(st, bs, *left, cur, vars, names, temps);
            law_expr_value_in_fresh_temp(st, bs, *left, cur);
            let n1 = bl[cur].instructions.len() as int;
            let new_l = bl[cur].instructions.subrange(n0, n1);
            let t1 = run_instrs(new_l, temps, vars);
            let (r, sr, br) = lower_expr_spec(sl, bl, *right, cur)->0;
            lemma_expr_runs(sl, bl, *right, cur, vars, names, t1);
            law_expr_value_in_fresh_temp(sl, bl, *right, cur);
            let n2 = br[cur].instructions.len() as int;
            let new_r = br[cur].instructions.subrange(n1, n2);
            let dty = binop_result(op, l.ty)->0;
            let (dst, s3) = new_temp_spec(sr, dty)->0;
            let b = binop_instr(op, dst, l, r);
            assert(ins == br[cur].instructions.push(b));
            assert(ins.subrange(0, n0) =~= bs[cur].instructions) by {
                assert(ins.subrange(0, n0) =~= br[cur].instructions.subrange(0, n1).subrange(0, n0));
            }
            assert(ins.subrange(n0, ins.len() as int) =~= (new_l + new_r).push(b)) by {
                assert(br[cur].instructions.subrange(0, n1) == bl[cur].instructions);
            }
            assert forall|k: int|
                n0 <= k < ins.len() && (#[trigger] dest(ins[k])) is Some implies st.temp_counter <= dest(ins[k])->0.id
                < st1.temp_counter by {
                if k < n1 {
                    assert(ins[k] == bl[cur].instructions[k]);
                } else if k < n2 {
                    assert(ins[k] == br[cur].instructions[k]);
                } else {
                    assert(ins[k] == b);
                }
            }
            if names_match(st1.var_table, vars, names) && source_value(e, names) is Some {
                assert(st1.var_table == sr.var_table);
                assert forall|name: Seq<char>| #[trigger] find_var(sl.var_table, name, 0) is Some implies vars(
                    var_number(find_var(sl.var_table, name, 0)->0),
                ) == names(name) by {
                    assert forall|k: int| 0 <= k < sl.var_table.len() implies #[trigger] sr.var_table[k]
                        == sl.var_table[k] by {
                        assert(sr.var_table.subrange(0, sl.var_table.len() as int)[k] == sr.var_table[k]);
                    }
                    lemma_find_var_prefix(sl.var_table, sr.var_table, name, 0);
                    assert(find_var(sr.var_table, name, 0) is Some);
                }
                lemma_run_concat(new_l, new_r, temps, vars);
                let t2 = run_instrs(new_r, t1, vars);
                assert forall|k: int| 0 <= k < new_r.len() && (#[trigger] dest(new_r[k])) is Some implies dest(
                    new_r[k],
                )->0.id >= sl.temp_counter by {
                    assert(new_r[k] == br[cur].instructions[n1 + k]);
                }
                lemma_run_frame(new_r, t1, vars, sl.temp_counter, l.id);
                assert((new_l + new_r).push(b).drop_last() =~= new_l + new_r);
                law_operator_lowered_faithfully(op, l.ty, dst, l, r, t2);
            }
        },
        ExprV::Ident(name) => {
            let (id, sa) = var_id_spec(st, name)->0;
            assert(ins.subrange(0, n0) =~= bs[cur].instructions);
            assert(ins.subrange(n0, ins.len() as int) =~= seq![ins[n0]]);
            assert(seq![ins[n0]].drop_last() =~= Seq::<InstrV>::empty());
            if find_var(st.var_table, name@, 0) is None {
                lemma_find_var_push(st.var_table, (name, id), name@, 0);
            }
            assert(find_var(st1.var_table, name@, 0) == Some(id));
        },
        _ => {
            assert(ins.subrange(0, n0) =~= bs[cur].instructions);
            assert(ins.subrange(n0, ins.len() as int) =~= seq![ins[n0]]);
            assert(seq![ins[n0]].drop_last() =~= Seq::<InstrV>::empty());
        },
    }
}

/// Lowering an expression appends to its block instructions that compute
/// it: when each variable the lowering has numbered holds the value of the
/// source variable of that name, running the appended instructions, from
/// any values of the temporaries, leaves the value of the source
/// expression in the result temporary. The appended instructions write
/// only temporaries numbered from the counter at the start, and the block
/// keeps the instructions it had.
pub proof fn law_lowered_expr_computes_value(
    st: LState,
    bs: Seq<BlockV>,
    e: ExprV,
    cur: int,
    vars: spec_fn(usize) -> int,
    names: spec_fn(Seq<char>) -> int,
    temps: spec_fn(usize) -> int,
)
    requires
        lower_expr_spec(st, bs, e, cur) is Some,
    ensures
        ({
            let (t, st1, bs1) = lower_expr_spec(st, bs, e, cur)->0;
            let n0 = bs[cur].instructions.len() as int;
            let ins = bs1[cur].instructions;
            &&& n0 <= ins.len()
            &&& ins.subrange(0, n0) == bs[cur].instructions
            &&& forall|k: int|
                n0 <= k < ins.len() && (#[trigger] dest(ins[k])) is Some ==> st.temp_counter <= dest(ins[k])->0.id
                    < st1.temp_counter
            &&& (names_match(st1.var_table, vars, names) && source_value(e, names) is Some) ==> run_instrs(
                ins.subrange(n0, ins.len() as int),
                temps,
                vars,
            )(t.id) == source_value(e, names)->0
        }),
{
    lemma_expr_runs(st, bs, e, cur, vars, names, temps);
}

} // verus!
