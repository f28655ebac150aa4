//! Scope, type and control-flow checks over parsed statements.
use vstd::prelude::*;
use crate::compiler::parser::{
    exprs_view, lemma_call_view, lemma_for_view, lemma_func_view, lemma_if_view, lemma_loop_view,
    lemma_print_view, lemma_simple_stmt_views, lemma_vec_view, lemma_when_view, lemma_while_view, opt_block_view,
    opt_expr_view, stmts_view, Assignment, BinOp, Expr, ExprV, ForLoop, FuncDecl, IfStatement, Loop,
    Mutability, Stmt, StmtV, Type, VarDecl, WhileLoop,
};
use crate::compiler::text::{decimal_int, push_i128, push_str, push_u128, decimal};

verus! {

/// What is known of a declared variable.
#[derive(Debug)]
pub struct SymbolInfo {
    pub ty: Type,
    pub mutability: Mutability,
    pub initialized: bool,
}

/// The signature of a declared function.
#[derive(Debug)]
pub struct FunctionInfo {
    pub params: Vec<(Type, String)>,
    pub return_type: Option<Type>,
}

/// The signature of a declared function, with its parameters as a sequence.
pub struct FunV {
    pub params: Seq<(Type, String)>,
    pub return_type: Option<Type>,
}

impl FunctionInfo {
    pub open spec fn view(&self) -> FunV {
        FunV { params: self.params@, return_type: self.return_type }
    }
}

#[derive(Debug, Clone, Copy, PartialEq, Eq, Structural)]
pub enum SemanticErrorKind {
    UndeclaredVariable,
    UndeclaredFunction,
    RedeclaredVariable,
    IntegerOverflow,
    IntegerUnderflow,
    TypeMismatch,
    ImmutableAssignment,
    InvalidOperation,
    MissingReturn,
    WrongReturnType,
    ArgumentCountMismatch,
    ArgumentTypeMismatch,
    InvalidStep,
}

/// What a semantic error reports beyond its kind: the names, types, values
/// and operators involved.
#[derive(Debug)]
pub enum SemanticMessage {
    /// A variable declared twice in one scope.
    RedeclaredVariable(String),
    /// A function declared twice.
    RedeclaredFunction(String),
    BreakOutsideLoop,
    ContinueOutsideLoop,
    /// The type found for a `while` condition.
    WhileConditionNotBool(Type),
    /// An integer literal outside the range of the declared type.
    IntegerOutOfRange { value: i128, ty: Type },
    /// A declaration whose value has another type.
    VariableTypeMismatch { name: String, expected: Type, found: Type },
    UndeclaredVariable(String),
    /// An assignment to a `const` variable.
    ConstAssignment(String),
    /// An assignment of a value of another type.
    AssignmentTypeMismatch { name: String, expected: Type, found: Type },
    /// A compound assignment between the variable's type and the value's.
    InvalidCompound { op: BinOp, left: Type, right: Type },
    /// The type found for an `if` condition.
    IfConditionNotBool(Type),
    ForStartNotInteger(Type),
    ZeroStep,
    /// The type found for a `for` step.
    ForStepNotInteger(Option<Type>),
    ForEndNotInteger(Type),
    /// A function with a return type and no top-level `return`.
    MissingReturn(String),
    /// A `return` whose value does not fit the function's return type.
    WrongReturnType { name: String, expected: Type, found: Type },
    UndeclaredFunction(String),
    /// A call with the wrong number of arguments.
    ArgumentCount { name: String, expected: usize, found: usize },
    /// The argument at `index` (counted from 1) has the wrong type.
    ArgumentType { index: usize, name: String, expected: Type, found: Type },
    /// A binary operation between operands of two types.
    InvalidBinary { op: BinOp, left: Type, right: Type },
    /// An operator applied to operands that are not integers.
    IntegerOperands(BinOp),
    /// The type found under an identity operator.
    IdentityNotBool(Type),
    EmptyVector,
    /// A vector element of another type than the first.
    VectorElementMismatch { expected: Type, found: Type },
}

#[derive(Debug)]
pub struct SemanticError {
    kind: SemanticErrorKind,
    message: SemanticMessage,
}

pub struct AnalysisResult {
    pub errors: Vec<SemanticError>,
    pub success: bool,
}

#[derive(Debug, Clone)]
pub struct SemanticAnalyzer {
    scopes: Vec<Vec<(String, SymbolInfo)>>,
    functions: Vec<(String, FunctionInfo)>,
    current_function: Option<String>,
    loop_depth: usize,
    errors: Vec<SemanticError>,
}

// ---------------------------------------------------------------------
// The model: the analyzer's state as sequences
// ---------------------------------------------------------------------

/// The state of an analyzer: the scopes from outermost to innermost, each
/// with its variables in declaration order; the functions in registration
/// order; the function being checked; the loop nesting counter; the errors
/// so far.
pub struct AState {
    pub scopes: Seq<Seq<(String, SymbolInfo)>>,
    pub functions: Seq<(String, FunV)>,
    pub current_function: Option<String>,
    pub loop_depth: int,
    pub errors: Seq<SemanticError>,
}

impl SemanticError {
    /// The error of a kind with a message.
    pub closed spec fn of(kind: SemanticErrorKind, message: SemanticMessage) -> SemanticError {
        SemanticError { kind, message }
    }

    pub closed spec fn kind_spec(&self) -> SemanticErrorKind {
        self.kind
    }

    pub closed spec fn message_spec(&self) -> SemanticMessage {
        self.message
    }

    pub proof fn lemma_of(kind: SemanticErrorKind, message: SemanticMessage)
        ensures
            Self::of(kind, message).kind_spec() == kind,
            Self::of(kind, message).message_spec() == message,
    {
    }

    pub fn kind(&self) -> (r: SemanticErrorKind)
        ensures
            r == self.kind_spec(),
    {
        self.kind
    }

    pub fn message(&self) -> (r: &SemanticMessage)
        ensures
            *r == self.message_spec(),
    {
        &self.message
    }
}

impl SemanticAnalyzer {
    pub closed spec fn view(&self) -> AState {
        AState {
            scopes: Seq::new(self.scopes@.len(), |i: int| self.scopes@[i]@),
            functions: Seq::new(
                self.functions@.len(),
                |i: int| (self.functions@[i].0, self.functions@[i].1.view()),
            ),
            current_function: self.current_function,
            loop_depth: self.loop_depth as int,
            errors: self.errors@,
        }
    }
}

/// The state of a fresh analyzer: one empty (global) scope.
pub open spec fn initial_state() -> AState {
    AState {
        scopes: seq![Seq::empty()],
        functions: Seq::empty(),
        current_function: None,
        loop_depth: 0,
        errors: Seq::empty(),
    }
}

/// `b` differs from `a` at most in having more errors.
pub open spec fn only_errors_added(a: AState, b: AState) -> bool {
    &&& b.scopes == a.scopes
    &&& b.functions == a.functions
    &&& b.current_function == a.current_function
    &&& b.loop_depth == a.loop_depth
}

pub open spec fn push_err(st: AState, kind: SemanticErrorKind, message: SemanticMessage) -> AState {
    AState { errors: st.errors.push(SemanticError::of(kind, message)), ..st }
}

/// The first entry named `name` in `scope` from index `i` on.
pub open spec fn find_symbol(scope: Seq<(String, SymbolInfo)>, name: Seq<char>, i: int) -> Option<SymbolInfo>
    decreases scope.len() - i,
{
    if i < 0 || i >= scope.len() {
        None
    } else if scope[i].0@ == name {
        Some(scope[i].1)
    } else {
        find_symbol(scope, name, i + 1)
    }
}

/// The first function named `name` from index `i` on.
pub open spec fn find_function(fs: Seq<(String, FunV)>, name: Seq<char>, i: int) -> Option<FunV>
    decreases fs.len() - i,
{
    if i < 0 || i >= fs.len() {
        None
    } else if fs[i].0@ == name {
        Some(fs[i].1)
    } else {
        find_function(fs, name, i + 1)
    }
}

/// The variable `name` as seen from the `k` outermost scopes, innermost
/// first.
pub open spec fn lookup_below(scopes: Seq<Seq<(String, SymbolInfo)>>, name: Seq<char>, k: int) -> Option<SymbolInfo>
    decreases k,
{
    if k <= 0 || k > scopes.len() {
        None
    } else {
        match find_symbol(scopes[k - 1], name, 0) {
            Some(info) => Some(info),
            None => lookup_below(scopes, name, k - 1),
        }
    }
}

/// The variable `name` as seen from the innermost scope.
pub open spec fn lookup_spec(scopes: Seq<Seq<(String, SymbolInfo)>>, name: Seq<char>) -> Option<SymbolInfo> {
    lookup_below(scopes, name, scopes.len() as int)
}

pub open spec fn enter_spec(st: AState) -> AState {
    AState { scopes: st.scopes.push(Seq::empty()), ..st }
}

pub open spec fn exit_spec(st: AState) -> AState {
    if st.scopes.len() == 0 {
        st
    } else {
        AState { scopes: st.scopes.drop_last(), ..st }
    }
}

/// Declares `name` in the innermost scope, or reports it as declared there
/// already.
pub open spec fn declare_spec(st: AState, name: String, ty: Type, mutability: Mutability) -> AState {
    if st.scopes.len() == 0 {
        st
    } else if find_symbol(st.scopes.last(), name@, 0) is Some {
        push_err(st, SemanticErrorKind::RedeclaredVariable, SemanticMessage::RedeclaredVariable(name))
    } else {
        AState {
            scopes: st.scopes.update(
                st.scopes.len() - 1,
                st.scopes.last().push((name, SymbolInfo { ty, mutability, initialized: true })),
            ),
            ..st
        }
    }
}

/// Registers a function, or reports it as declared already.
pub open spec fn register_spec(st: AState, name: String, params: Seq<(Type, String)>, return_type: Option<Type>) -> AState {
    if find_function(st.functions, name@, 0) is Some {
        push_err(st, SemanticErrorKind::RedeclaredVariable, SemanticMessage::RedeclaredFunction(name))
    } else {
        AState { functions: st.functions.push((name, FunV { params, return_type })), ..st }
    }
}

// ---------------------------------------------------------------------
// Rules on types
// ---------------------------------------------------------------------

pub open spec fn is_integer_spec(t: Type) -> bool {
    match t {
        Type::Int | Type::UInt | Type::I8 | Type::I16 | Type::I32 | Type::I64 | Type::I128 | Type::U8
        | Type::U16 | Type::U32 | Type::U64 | Type::U128 => true,
        _ => false,
    }
}

/// A value of type `found` may stand where `expected` is declared: the same
/// type, or any signed type for `int` and any unsigned type for `uint`.
pub open spec fn compatible_spec(expected: Type, found: Type) -> bool {
    match (expected, found) {
        (Type::Int, Type::I8) | (Type::Int, Type::I16) | (Type::Int, Type::I32) | (Type::Int, Type::I64)
        | (Type::Int, Type::I128) | (Type::Int, Type::Int) => true,
        (Type::UInt, Type::U8) | (Type::UInt, Type::U16) | (Type::UInt, Type::U32) | (Type::UInt, Type::U64)
        | (Type::UInt, Type::U128) | (Type::UInt, Type::UInt) => true,
        _ => expected == found,
    }
}

/// The common type of the two operands of a binary operation: the one that
/// accepts the other (so `int` with an `i8` literal gives `int`), or none
/// where neither accepts the other.
pub open spec fn unify_spec(left: Type, right: Type) -> Option<Type> {
    if compatible_spec(left, right) {
        Some(left)
    } else if compatible_spec(right, left) {
        Some(right)
    } else {
        None
    }
}

pub open spec fn is_arith_op(op: BinOp) -> bool {
    op == BinOp::Add || op == BinOp::Sub || op == BinOp::Mul || op == BinOp::Div || op == BinOp::Percent
}

pub open spec fn is_comparison_op(op: BinOp) -> bool {
    op == BinOp::Greater || op == BinOp::Less || op == BinOp::GreaterEqual || op == BinOp::LessEqual
        || op == BinOp::DoubleEqual || op == BinOp::NotEqual
}

pub open spec fn is_compound_op(op: BinOp) -> bool {
    op == BinOp::CompoundAdd || op == BinOp::CompoundSub || op == BinOp::CompoundMul || op == BinOp::CompoundDiv
}

pub open spec fn valid_binop_spec(left: Type, op: BinOp, right: Type) -> bool {
    if is_arith_op(op) || is_compound_op(op) {
        is_integer_spec(left) && is_integer_spec(right)
    } else if is_comparison_op(op) {
        compatible_spec(left, right)
    } else {
        left == Type::Bool && right == Type::Bool
    }
}

pub open spec fn binop_result_spec(left: Type, op: BinOp) -> Type {
    if is_arith_op(op) || is_compound_op(op) {
        left
    } else {
        Type::Bool
    }
}

/// The smallest and largest value of an integer type.
pub open spec fn type_bounds(t: Type) -> Option<(int, int)> {
    match t {
        Type::I8 => Some((-0x80, 0x7f)),
        Type::I16 => Some((-0x8000, 0x7fff)),
        Type::I32 => Some((-0x8000_0000, 0x7fff_ffff)),
        Type::I64 | Type::Int => Some((-0x8000_0000_0000_0000, 0x7fff_ffff_ffff_ffff)),
        Type::I128 => Some((-0x8000_0000_0000_0000_0000_0000_0000_0000, 0x7fff_ffff_ffff_ffff_ffff_ffff_ffff_ffff)),
        Type::U8 => Some((0, 0xff)),
        Type::U16 => Some((0, 0xffff)),
        Type::U32 => Some((0, 0xffff_ffff)),
        Type::U64 | Type::UInt => Some((0, 0xffff_ffff_ffff_ffff)),
        Type::U128 => Some((0, 0xffff_ffff_ffff_ffff_ffff_ffff_ffff_ffff)),
        _ => None,
    }
}

/// An `i128` value lies in the range of a type (any value fits a type that
/// is not an integer type).
pub open spec fn fits_spec(v: i128, t: Type) -> bool {
    match type_bounds(t) {
        Some((lo, hi)) => lo <= v <= hi,
        None => true,
    }
}

/// The value of an integer literal of any width, as an `i128` (a `u128`
/// above `i128::MAX` wraps).
pub open spec fn literal_value(e: ExprV) -> Option<i128> {
    match e {
        ExprV::IntLiteral(v) => Some(v as i128),
        ExprV::UIntLiteral(v) => Some(v as i128),
        ExprV::I128Literal(v) => Some(v),
        ExprV::U128Literal(v) => Some(v as i128),
        ExprV::Int8(v) => Some(v as i128),
        ExprV::Int16(v) => Some(v as i128),
        ExprV::Int32(v) => Some(v as i128),
        ExprV::Int64(v) => Some(v as i128),
        ExprV::Int128(v) => Some(v),
        ExprV::UInt8(v) => Some(v as i128),
        ExprV::UInt16(v) => Some(v as i128),
        ExprV::UInt32(v) => Some(v as i128),
        ExprV::UInt64(v) => Some(v as i128),
        ExprV::UInt128(v) => Some(v as i128),
        ExprV::Int(v) => Some(v as i128),
        ExprV::UInt(v) => Some(v as i128),
        _ => None,
    }
}

/// The narrowest signed type that holds a signed literal.
pub open spec fn int_literal_type(v: i64) -> Type {
    if -0x80 <= v <= 0x7f {
        Type::I8
    } else if -0x8000 <= v <= 0x7fff {
        Type::I16
    } else if -0x8000_0000 <= v <= 0x7fff_ffff {
        Type::I32
    } else {
        Type::I64
    }
}

/// The narrowest unsigned type that holds an unsigned literal.
pub open spec fn uint_literal_type(v: u64) -> Type {
    if v <= 0xff {
        Type::U8
    } else if v <= 0xffff {
        Type::U16
    } else if v <= 0xffff_ffff {
        Type::U32
    } else {
        Type::U64
    }
}

/// Rust's division of integers, rounding toward zero.
pub open spec fn trunc_div(a: int, b: int) -> int {
    if a >= 0 { a / b } else { -((-a) / b) }
}

/// Rust's remainder, with the sign of the dividend.
pub open spec fn trunc_rem(a: int, b: int) -> int {
    if a >= 0 { a % b } else { -((-a) % b) }
}

/// The truth value of a condition as an integer, as C gives it: 1 or 0.
pub open spec fn truth(b: bool) -> int {
    if b { 1 } else { 0 }
}

/// What `a op b` means for integer operands `a` and `b` in the source
/// language: the four operations and the remainder with Rust's rounding
/// toward zero (no value for a zero divisor), and the comparisons as 1 for
/// true and 0 for false. The compound operators compute no value here.
pub open spec fn binop_value(op: BinOp, a: int, b: int) -> Option<int> {
    match op {
        BinOp::Add => Some(a + b),
        BinOp::Sub => Some(a - b),
        BinOp::Mul => Some(a * b),
        BinOp::Div => if b == 0 { None } else { Some(trunc_div(a, b)) },
        BinOp::Percent => if b == 0 { None } else { Some(trunc_rem(a, b)) },
        BinOp::DoubleEqual | BinOp::IndentityOp => Some(truth(a == b)),
        BinOp::NotEqual => Some(truth(a != b)),
        BinOp::Less => Some(truth(a < b)),
        BinOp::LessEqual => Some(truth(a <= b)),
        BinOp::Greater => Some(truth(a > b)),
        BinOp::GreaterEqual => Some(truth(a >= b)),
        _ => None,
    }
}

/// The value of an expression made of integer and boolean literals,
/// variables (`names` gives each its value) and binary operations; no
/// value for other expressions or where an operation has none.
pub open spec fn source_value(e: ExprV, names: spec_fn(Seq<char>) -> int) -> Option<int>
    decreases e,
{
    match e {
        ExprV::IntLiteral(v) => Some(v as int),
        ExprV::BoolLiteral(b) => Some(truth(b)),
        ExprV::Ident(n) => Some(names(n@)),
        ExprV::BinaryOp { left, op, right } => match (source_value(*left, names), source_value(*right, names)) {
            (Some(a), Some(b)) => binop_value(op, a, b),
            _ => None,
        },
        _ => None,
    }
}

pub open spec fn in_i128(v: int) -> bool {
    i128::MIN <= v <= i128::MAX
}

/// The value of a constant integer expression: fixed-width literals and the
/// arithmetic operators over them; `None` for anything else. Every step is
/// taken on `i128`.
pub open spec fn const_value(e: ExprV) -> Option<int>
    decreases e,
{
    match e {
        ExprV::IntLiteral(v) => Some(v as int),
        ExprV::UIntLiteral(v) => Some(v as int),
        ExprV::Int8(v) => Some(v as int),
        ExprV::Int16(v) => Some(v as int),
        ExprV::Int32(v) => Some(v as int),
        ExprV::Int64(v) => Some(v as int),
        ExprV::Int128(v) => Some(v as int),
        ExprV::UInt8(v) => Some(v as int),
        ExprV::UInt16(v) => Some(v as int),
        ExprV::UInt32(v) => Some(v as int),
        ExprV::UInt64(v) => Some(v as int),
        ExprV::UInt128(v) => Some((v as i128) as int),
        ExprV::BinaryOp { left, op, right } => match const_value(*left) {
            None => None,
            Some(l) => match const_value(*right) {
                None => None,
                Some(r) => if op == BinOp::Add {
                    Some(l + r)
                } else if op == BinOp::Sub {
                    Some(l - r)
                } else if op == BinOp::Mul {
                    Some(l * r)
                } else if op == BinOp::Div {
                    Some(trunc_div(l, r))
                } else if op == BinOp::Percent {
                    Some(trunc_rem(l, r))
                } else {
                    None
                },
            },
        },
        _ => None,
    }
}

/// Constant evaluation stays within `i128` and never divides by zero, so
/// that it runs without a panic.
pub open spec fn const_eval_ok(e: ExprV) -> bool
    decreases e,
{
    match e {
        ExprV::BinaryOp { left, op, right } => match (const_value(*left), const_value(*right)) {
            (Some(l), Some(r)) => {
                &&& const_eval_ok(*left)
                &&& const_eval_ok(*right)
                &&& ((op == BinOp::Div || op == BinOp::Percent) ==> r != 0 && in_i128(trunc_div(l, r)))
                &&& (const_value(e) matches Some(v) ==> in_i128(v))
            },
            (Some(_), None) => const_eval_ok(*left) && const_eval_ok(*right),
            _ => const_eval_ok(*left),
        },
        _ => true,
    }
}

// ---------------------------------------------------------------------
// Checking expressions
// ---------------------------------------------------------------------

/// The type of an expression and the state after checking it: only errors
/// are added. An error in an operand gives `void`.
pub open spec fn check_expr_spec(st: AState, e: ExprV) -> (Type, AState)
    decreases e, 0nat,
{
    match e {
        ExprV::IntLiteral(v) => (int_literal_type(v), st),
        ExprV::UIntLiteral(v) => (uint_literal_type(v), st),
        ExprV::I128Literal(_) => (Type::I128, st),
        ExprV::U128Literal(_) => (Type::U128, st),
        ExprV::BoolLiteral(_) => (Type::Bool, st),
        ExprV::StringLiteral(_) => (Type::Str, st),
        ExprV::UInt8(_) => (Type::U8, st),
        ExprV::UInt16(_) => (Type::U16, st),
        ExprV::UInt32(_) => (Type::U32, st),
        ExprV::UInt64(_) => (Type::U64, st),
        ExprV::UInt128(_) => (Type::U128, st),
        ExprV::Int8(_) => (Type::I8, st),
        ExprV::Int16(_) => (Type::I16, st),
        ExprV::Int32(_) => (Type::I32, st),
        ExprV::Int64(_) => (Type::I64, st),
        ExprV::Int128(_) => (Type::I128, st),
        ExprV::Int(_) => (Type::Int, st),
        ExprV::UInt(_) => (Type::UInt, st),
        ExprV::Ident(name) => match lookup_spec(st.scopes, name@) {
            Some(info) => (info.ty, st),
            None => (
                Type::Void,
                push_err(st, SemanticErrorKind::UndeclaredVariable, SemanticMessage::UndeclaredVariable(name)),
            ),
        },
        ExprV::Call { name, args } => match find_function(st.functions, name@, 0) {
            None => (
                Type::Void,
                push_err(st, SemanticErrorKind::UndeclaredFunction, SemanticMessage::UndeclaredFunction(name)),
            ),
            Some(f) => {
                let st1 = if args.len() != f.params.len() {
                    push_err(
                        st,
                        SemanticErrorKind::ArgumentCountMismatch,
                        SemanticMessage::ArgumentCount {
                            name,
                            expected: f.params.len() as usize,
                            found: args.len() as usize,
                        },
                    )
                } else {
                    st
                };
                (
                    match f.return_type {
                        Some(t) => t,
                        None => Type::Void,
                    },
                    check_args_spec(st1, name, f.params, args, 0),
                )
            },
        },
        ExprV::BinaryOp { left, op, right } => {
            let (lt, st1) = check_expr_spec(st, *left);
            let (rt, st2) = check_expr_spec(st1, *right);
            if lt == Type::Void || rt == Type::Void {
                (Type::Void, st2)
            } else if unify_spec(lt, rt) is None {
                (
                    Type::Void,
                    push_err(
                        st2,
                        SemanticErrorKind::InvalidOperation,
                        SemanticMessage::InvalidBinary { op, left: lt, right: rt },
                    ),
                )
            } else if is_arith_op(op) || is_comparison_op(op) {
                let ut = unify_spec(lt, rt)->0;
                if !is_integer_spec(ut) {
                    (
                        Type::Void,
                        push_err(st2, SemanticErrorKind::InvalidOperation, SemanticMessage::IntegerOperands(op)),
                    )
                } else if is_arith_op(op) {
                    (ut, st2)
                } else {
                    (Type::Bool, st2)
                }
            } else {
                (Type::Void, st2)
            }
        },
        ExprV::Identity { expr, negated: _ } => {
            let (t, st1) = check_expr_spec(st, *expr);
            (
                Type::Bool,
                if t != Type::Bool {
                    push_err(st1, SemanticErrorKind::TypeMismatch, SemanticMessage::IdentityNotBool(t))
                } else {
                    st1
                },
            )
        },
        ExprV::Vec { values, size: _ } => if values.len() == 0 {
            (Type::Void, push_err(st, SemanticErrorKind::InvalidOperation, SemanticMessage::EmptyVector))
        } else {
            let (first, st1) = check_expr_spec(st, values[0]);
            (
                Type::Vec { inner: Box::new(first), size: values.len() as usize },
                check_elements_spec(st1, first, values, 1),
            )
        },
        ExprV::Unknown => (Type::Void, st),
    }
}

/// Checks the arguments of a call from index `i` on against the parameter
/// types; arguments beyond the parameters are not checked.
pub open spec fn check_args_spec(
    st: AState,
    name: String,
    params: Seq<(Type, String)>,
    args: Seq<ExprV>,
    i: int,
) -> AState
    decreases args, args.len() - i,
{
    if i < 0 || i >= args.len() {
        st
    } else if i < params.len() {
        let (t, st1) = check_expr_spec(st, args[i]);
        let st2 = if !compatible_spec(params[i].0, t) {
            push_err(
                st1,
                SemanticErrorKind::ArgumentTypeMismatch,
                SemanticMessage::ArgumentType { index: (i + 1) as usize, name, expected: params[i].0, found: t },
            )
        } else {
            st1
        };
        check_args_spec(st2, name, params, args, i + 1)
    } else {
        check_args_spec(st, name, params, args, i + 1)
    }
}

/// Checks the elements of a vector from index `i` on against the type of
/// the first.
pub open spec fn check_elements_spec(st: AState, first: Type, values: Seq<ExprV>, i: int) -> AState
    decreases values, values.len() - i,
{
    if i < 0 || i >= values.len() {
        st
    } else {
        let (t, st1) = check_expr_spec(st, values[i]);
        let st2 = if !compatible_spec(first, t) {
            push_err(
                st1,
                SemanticErrorKind::TypeMismatch,
                SemanticMessage::VectorElementMismatch { expected: first, found: t },
            )
        } else {
            st1
        };
        check_elements_spec(st2, first, values, i + 1)
    }
}

/// Checks the expressions of a `print` from index `i` on.
pub open spec fn check_exprs_spec(st: AState, es: Seq<ExprV>, i: int) -> AState
    decreases es.len() - i,
{
    if i < 0 || i >= es.len() {
        st
    } else {
        check_exprs_spec(check_expr_spec(st, es[i]).1, es, i + 1)
    }
}

// ---------------------------------------------------------------------
// Checking statements
// ---------------------------------------------------------------------

/// The statements `ss` from index `i` on, checked in order.
pub open spec fn check_stmts_spec(st: AState, ss: Seq<StmtV>, i: int) -> AState
    decreases ss, ss.len() - i,
{
    if i < 0 || i >= ss.len() {
        st
    } else {
        check_stmts_spec(check_stmt_spec(st, ss[i]), ss, i + 1)
    }
}

/// A condition that must be of type `bool`, with the message for another
/// type.
pub open spec fn bool_condition_spec(st: AState, cond: ExprV, while_loop: bool) -> AState {
    let (t, st1) = check_expr_spec(st, cond);
    if t != Type::Bool {
        push_err(
            st1,
            SemanticErrorKind::TypeMismatch,
            if while_loop {
                SemanticMessage::WhileConditionNotBool(t)
            } else {
                SemanticMessage::IfConditionNotBool(t)
            },
        )
    } else {
        st1
    }
}

/// A statement checked in state `st`.
pub open spec fn check_stmt_spec(st: AState, s: StmtV) -> AState
    decreases s, 2nat,
{
    match s {
        StmtV::VarDecl { name, ty, value, mutability } => var_decl_spec(st, name, ty, value, mutability),
        StmtV::FuncDecl { .. } => func_decl_spec(st, s),
        StmtV::Assignment { target, value } => assignment_spec(st, target, value),
        StmtV::CompoundAssign { target, op, value } => compound_spec(st, target, op, value),
        StmtV::IfStatement { .. } => if_spec(st, s),
        StmtV::WhenStatement { .. } => st,
        StmtV::ForLoop { .. } => for_spec(st, s),
        StmtV::Loop { body } => {
            let st1 = check_stmts_spec(AState { loop_depth: st.loop_depth + 1, ..enter_spec(st) }, body, 0);
            exit_spec(AState { loop_depth: st1.loop_depth - 1, ..st1 })
        },
        StmtV::Return(e) => return_spec(st, e),
        StmtV::Print(es) => check_exprs_spec(st, es, 0),
        StmtV::Break => if st.loop_depth == 0 {
            push_err(st, SemanticErrorKind::InvalidOperation, SemanticMessage::BreakOutsideLoop)
        } else {
            st
        },
        StmtV::Continue => if st.loop_depth == 0 {
            push_err(st, SemanticErrorKind::InvalidOperation, SemanticMessage::ContinueOutsideLoop)
        } else {
            st
        },
        StmtV::WhileLoop { cond, body } => {
            let st1 = bool_condition_spec(st, cond, true);
            exit_spec(check_stmts_spec(AState { loop_depth: st1.loop_depth + 1, ..enter_spec(st1) }, body, 0))
        },
    }
}

/// `if`: the condition, then each branch in a scope of its own.
pub open spec fn if_spec(st: AState, s: StmtV) -> AState
    decreases s, 1nat,
{
    match s {
        StmtV::IfStatement { condition, then_branch, else_branch } => {
            let st1 = bool_condition_spec(st, condition, false);
            let st2 = exit_spec(check_stmts_spec(enter_spec(st1), then_branch, 0));
            match else_branch {
                Some(b) => exit_spec(check_stmts_spec(enter_spec(st2), b, 0)),
                None => st2,
            }
        },
        _ => st,
    }
}

/// The head of a `for`: the start, step and end expressions are checked
/// in turn, then each is required to be an integer (a step written as the
/// literal `0` is refused too).
pub open spec fn for_head_spec(st: AState, start: ExprV, step: Option<ExprV>, end: ExprV) -> AState {
    let (start_t, st1) = check_expr_spec(st, start);
    let (step_t, st2) = match step {
        Some(e) => {
            let (t, st_e) = check_expr_spec(st1, e);
            (Some(t), st_e)
        },
        None => (None, st1),
    };
    let (end_t, st3) = check_expr_spec(st2, end);
    let st4 = if !is_integer_spec(start_t) {
        push_err(st3, SemanticErrorKind::TypeMismatch, SemanticMessage::ForStartNotInteger(start_t))
    } else {
        st3
    };
    let st5 = if step matches Some(ExprV::IntLiteral(v)) && v == 0 {
        push_err(st4, SemanticErrorKind::InvalidStep, SemanticMessage::ZeroStep)
    } else {
        st4
    };
    let st6 = match step_t {
        Some(t) => if !is_integer_spec(t) {
            push_err(st5, SemanticErrorKind::TypeMismatch, SemanticMessage::ForStepNotInteger(step_t))
        } else {
            st5
        },
        None => st5,
    };
    if !is_integer_spec(end_t) {
        push_err(st6, SemanticErrorKind::TypeMismatch, SemanticMessage::ForEndNotInteger(end_t))
    } else {
        st6
    }
}

/// `for`: the head, then the body in a new scope holding the loop variable
/// as a `const int`. The loop counter is raised and not lowered again.
pub open spec fn for_spec(st: AState, s: StmtV) -> AState
    decreases s, 1nat,
{
    match s {
        StmtV::ForLoop { var, start, step, end, body } => {
            let st1 = for_head_spec(st, start, step, end);
            let st2 = declare_spec(
                AState { loop_depth: st1.loop_depth + 1, ..enter_spec(st1) },
                var,
                Type::Int,
                Mutability::Const,
            );
            exit_spec(check_stmts_spec(st2, body, 0))
        },
        _ => st,
    }
}

/// Declares the parameters from index `i` on as mutable variables.
pub open spec fn declare_params_spec(st: AState, params: Seq<(Type, String)>, i: int) -> AState
    decreases params.len() - i,
{
    if i < 0 || i >= params.len() {
        st
    } else {
        declare_params_spec(declare_spec(st, params[i].1, params[i].0, Mutability::Mutable), params, i + 1)
    }
}

/// Some statement at the top level of a body is a `return`.
pub open spec fn has_return(body: Seq<StmtV>) -> bool {
    exists|i: int| 0 <= i < body.len() && #[trigger] body[i] is Return
}

/// A function declaration: the body is checked in a scope holding the
/// parameters, with the function as the current one; a function with a
/// return type other than `void` needs a `return` at the top level of its
/// body.
pub open spec fn func_decl_spec(st: AState, s: StmtV) -> AState
    decreases s, 1nat,
{
    match s {
        StmtV::FuncDecl { name, params, return_type, body } => {
            let st1 = declare_params_spec(enter_spec(AState { current_function: Some(name), ..st }), params, 0);
            let st2 = check_stmts_spec(st1, body, 0);
            let st3 = if return_type is Some && return_type != Some(Type::Void) && !has_return(body) {
                push_err(st2, SemanticErrorKind::MissingReturn, SemanticMessage::MissingReturn(name))
            } else {
                st2
            };
            AState { current_function: None, ..exit_spec(st3) }
        },
        _ => st,
    }
}

/// A declaration: the value is checked; an integer literal outside the
/// declared type's range is an error that stops the declaration; otherwise
/// a value of an incompatible type is reported and the name is declared.
pub open spec fn var_decl_spec(st: AState, name: String, ty: Type, value: ExprV, mutability: Mutability) -> AState {
    let (t, st1) = check_expr_spec(st, value);
    match literal_value(value) {
        Some(v) if !fits_spec(v, ty) => push_err(
            st1,
            SemanticErrorKind::IntegerOverflow,
            SemanticMessage::IntegerOutOfRange { value: v, ty },
        ),
        _ => {
            let st2 = if !compatible_spec(ty, t) {
                push_err(
                    st1,
                    SemanticErrorKind::TypeMismatch,
                    SemanticMessage::VariableTypeMismatch { name, expected: ty, found: t },
                )
            } else {
                st1
            };
            declare_spec(st2, name, ty, mutability)
        },
    }
}

/// An assignment: the target must be declared (else nothing more is
/// checked) and not `const`, and the value must be compatible with it.
pub open spec fn assignment_spec(st: AState, target: String, value: ExprV) -> AState {
    match lookup_spec(st.scopes, target@) {
        None => push_err(st, SemanticErrorKind::UndeclaredVariable, SemanticMessage::UndeclaredVariable(target)),
        Some(info) => {
            let st1 = if info.mutability == Mutability::Const {
                push_err(st, SemanticErrorKind::ImmutableAssignment, SemanticMessage::ConstAssignment(target))
            } else {
                st
            };
            let (t, st2) = check_expr_spec(st1, value);
            if !compatible_spec(info.ty, t) {
                push_err(
                    st2,
                    SemanticErrorKind::TypeMismatch,
                    SemanticMessage::AssignmentTypeMismatch { name: target, expected: info.ty, found: t },
                )
            } else {
                st2
            }
        },
    }
}

/// A compound assignment: as an assignment, with the operator required to
/// apply to the target's type and the value's.
pub open spec fn compound_spec(st: AState, target: String, op: BinOp, value: ExprV) -> AState {
    match lookup_spec(st.scopes, target@) {
        None => push_err(st, SemanticErrorKind::UndeclaredVariable, SemanticMessage::UndeclaredVariable(target)),
        Some(info) => {
            let st1 = if info.mutability == Mutability::Const {
                push_err(st, SemanticErrorKind::ImmutableAssignment, SemanticMessage::ConstAssignment(target))
            } else {
                st
            };
            let (t, st2) = check_expr_spec(st1, value);
            if !valid_binop_spec(info.ty, op, t) {
                push_err(
                    st2,
                    SemanticErrorKind::InvalidOperation,
                    SemanticMessage::InvalidCompound { op, left: info.ty, right: t },
                )
            } else {
                st2
            }
        },
    }
}

/// A `return`: its value is checked against the return type of the
/// current function, where there is one.
pub open spec fn return_spec(st: AState, e: ExprV) -> AState {
    let (t, st1) = check_expr_spec(st, e);
    match st1.current_function {
        Some(fname) => match find_function(st1.functions, fname@, 0) {
            Some(f) => match f.return_type {
                Some(expected) => if !compatible_spec(expected, t) {
                    push_err(
                        st1,
                        SemanticErrorKind::WrongReturnType,
                        SemanticMessage::WrongReturnType { name: fname, expected, found: t },
                    )
                } else {
                    st1
                },
                None => st1,
            },
            None => st1,
        },
        None => st1,
    }
}

/// Registers the functions declared at the top level from index `i` on.
pub open spec fn register_all_spec(st: AState, ss: Seq<StmtV>, i: int) -> AState
    decreases ss.len() - i,
{
    if i < 0 || i >= ss.len() {
        st
    } else {
        let st1 = match ss[i] {
            StmtV::FuncDecl { name, params, return_type, .. } => register_spec(st, name, params, return_type),
            _ => st,
        };
        register_all_spec(st1, ss, i + 1)
    }
}

/// A whole program: every top-level function is registered first, then
/// every statement is checked.
pub open spec fn analyze_spec(st: AState, ss: Seq<StmtV>) -> AState {
    check_stmts_spec(register_all_spec(st, ss, 0), ss, 0)
}

/// How far checking a statement can raise the loop counter: one for each
/// loop in it.
pub open spec fn loops_in(s: StmtV) -> nat
    decreases s, 1nat,
{
    match s {
        StmtV::FuncDecl { body, .. } => block_loops(body, 0),
        StmtV::IfStatement { then_branch, else_branch, .. } => block_loops(then_branch, 0) + match else_branch {
            Some(b) => block_loops(b, 0),
            None => 0,
        },
        StmtV::ForLoop { body, .. } => 1 + block_loops(body, 0),
        StmtV::Loop { body } => 1 + block_loops(body, 0),
        StmtV::WhileLoop { body, .. } => 1 + block_loops(body, 0),
        _ => 0,
    }
}

pub open spec fn block_loops(ss: Seq<StmtV>, i: int) -> nat
    decreases ss, ss.len() - i,
{
    if i < 0 || i >= ss.len() {
        0
    } else {
        loops_in(ss[i]) + block_loops(ss, i + 1)
    }
}

// ---------------------------------------------------------------------
// Copies
// ---------------------------------------------------------------------

impl Clone for SymbolInfo {
    fn clone(&self) -> (r: Self)
        ensures
            r == *self,
    {
        SymbolInfo { ty: self.ty.clone(), mutability: self.mutability, initialized: self.initialized }
    }
}

fn clone_opt_type(t: &Option<Type>) -> (r: Option<Type>)
    ensures
        r == *t,
{
    match t {
        Some(t) => Some(t.clone()),
        None => None,
    }
}

fn clone_params(ps: &Vec<(Type, String)>) -> (r: Vec<(Type, String)>)
    ensures
        r@ == ps@,
{
    let mut r: Vec<(Type, String)> = Vec::new();
    let mut i: usize = 0;
    while i < ps.len()
        invariant
            i <= ps@.len(),
            r@ == ps@.subrange(0, i as int),
        decreases ps.len() - i,
    {
        r.push((ps[i].0.clone(), ps[i].1.clone()));
        i += 1;
        assert(r@ =~= ps@.subrange(0, i as int));
    }
    assert(r@ =~= ps@);
    r
}

impl Clone for FunctionInfo {
    fn clone(&self) -> (r: Self)
        ensures
            r.view() == self.view(),
    {
        FunctionInfo { params: clone_params(&self.params), return_type: clone_opt_type(&self.return_type) }
    }
}

impl Clone for SemanticMessage {
    fn clone(&self) -> (r: Self)
        ensures
            r == *self,
    {
        match self {
            SemanticMessage::RedeclaredVariable(n) => SemanticMessage::RedeclaredVariable(n.clone()),
            SemanticMessage::RedeclaredFunction(n) => SemanticMessage::RedeclaredFunction(n.clone()),
            SemanticMessage::BreakOutsideLoop => SemanticMessage::BreakOutsideLoop,
            SemanticMessage::ContinueOutsideLoop => SemanticMessage::ContinueOutsideLoop,
            SemanticMessage::WhileConditionNotBool(t) => SemanticMessage::WhileConditionNotBool(t.clone()),
            SemanticMessage::IntegerOutOfRange { value, ty } => SemanticMessage::IntegerOutOfRange {
                value: *value,
                ty: ty.clone(),
            },
            SemanticMessage::VariableTypeMismatch { name, expected, found } => SemanticMessage::VariableTypeMismatch {
                name: name.clone(),
                expected: expected.clone(),
                found: found.clone(),
            },
            SemanticMessage::UndeclaredVariable(n) => SemanticMessage::UndeclaredVariable(n.clone()),
            SemanticMessage::ConstAssignment(n) => SemanticMessage::ConstAssignment(n.clone()),
            SemanticMessage::AssignmentTypeMismatch { name, expected, found } => SemanticMessage::AssignmentTypeMismatch {
                name: name.clone(),
                expected: expected.clone(),
                found: found.clone(),
            },
            SemanticMessage::InvalidCompound { op, left, right } => SemanticMessage::InvalidCompound {
                op: *op,
                left: left.clone(),
                right: right.clone(),
            },
            SemanticMessage::IfConditionNotBool(t) => SemanticMessage::IfConditionNotBool(t.clone()),
            SemanticMessage::ForStartNotInteger(t) => SemanticMessage::ForStartNotInteger(t.clone()),
            SemanticMessage::ZeroStep => SemanticMessage::ZeroStep,
            SemanticMessage::ForStepNotInteger(t) => SemanticMessage::ForStepNotInteger(clone_opt_type(t)),
            SemanticMessage::ForEndNotInteger(t) => SemanticMessage::ForEndNotInteger(t.clone()),
            SemanticMessage::MissingReturn(n) => SemanticMessage::MissingReturn(n.clone()),
            SemanticMessage::WrongReturnType { name, expected, found } => SemanticMessage::WrongReturnType {
                name: name.clone(),
                expected: expected.clone(),
                found: found.clone(),
            },
            SemanticMessage::UndeclaredFunction(n) => SemanticMessage::UndeclaredFunction(n.clone()),
            SemanticMessage::ArgumentCount { name, expected, found } => SemanticMessage::ArgumentCount {
                name: name.clone(),
                expected: *expected,
                found: *found,
            },
            SemanticMessage::ArgumentType { index, name, expected, found } => SemanticMessage::ArgumentType {
                index: *index,
                name: name.clone(),
                expected: expected.clone(),
                found: found.clone(),
            },
            SemanticMessage::InvalidBinary { op, left, right } => SemanticMessage::InvalidBinary {
                op: *op,
                left: left.clone(),
                right: right.clone(),
            },
            SemanticMessage::IntegerOperands(op) => SemanticMessage::IntegerOperands(*op),
            SemanticMessage::IdentityNotBool(t) => SemanticMessage::IdentityNotBool(t.clone()),
            SemanticMessage::EmptyVector => SemanticMessage::EmptyVector,
            SemanticMessage::VectorElementMismatch { expected, found } => SemanticMessage::VectorElementMismatch {
                expected: expected.clone(),
                found: found.clone(),
            },
        }
    }
}

impl Clone for SemanticError {
    fn clone(&self) -> (r: Self)
        ensures
            r == *self,
    {
        SemanticError { kind: self.kind, message: self.message.clone() }
    }
}

fn clone_errors(es: &Vec<SemanticError>) -> (r: Vec<SemanticError>)
    ensures
        r@ == es@,
{
    let mut r: Vec<SemanticError> = Vec::new();
    let mut i: usize = 0;
    while i < es.len()
        invariant
            i <= es@.len(),
            r@ == es@.subrange(0, i as int),
        decreases es.len() - i,
    {
        r.push(es[i].clone());
        i += 1;
        assert(r@ =~= es@.subrange(0, i as int));
    }
    assert(r@ =~= es@);
    r
}

// ---------------------------------------------------------------------
// Type rules
// ---------------------------------------------------------------------

impl SemanticAnalyzer {
    /// The smallest and largest value of an integer type in decimal; `?` for
    /// another type.
    pub fn type_range(&self, ty: &Type) -> (r: (String, String))
        ensures
            match type_bounds(*ty) {
                Some((lo, hi)) => r.0@ == decimal_int(lo) && r.1@ == decimal_int(hi),
                None => r.0@ == seq!['?'] && r.1@ == seq!['?'],
            },
    {
        let mut lo = String::new();
        let mut hi = String::new();
        match ty {
            Type::I8 => {
                push_i128(&mut lo, -0x80);
                push_i128(&mut hi, 0x7f);
            },
            Type::I16 => {
                push_i128(&mut lo, -0x8000);
                push_i128(&mut hi, 0x7fff);
            },
            Type::I32 => {
                push_i128(&mut lo, -0x8000_0000);
                push_i128(&mut hi, 0x7fff_ffff);
            },
            Type::I64 | Type::Int => {
                push_i128(&mut lo, -0x8000_0000_0000_0000);
                push_i128(&mut hi, 0x7fff_ffff_ffff_ffff);
            },
            Type::I128 => {
                push_i128(&mut lo, i128::MIN);
                push_i128(&mut hi, i128::MAX);
            },
            Type::U8 => {
                push_i128(&mut lo, 0);
                push_i128(&mut hi, 0xff);
            },
            Type::U16 => {
                push_i128(&mut lo, 0);
                push_i128(&mut hi, 0xffff);
            },
            Type::U32 => {
                push_i128(&mut lo, 0);
                push_i128(&mut hi, 0xffff_ffff);
            },
            Type::U64 | Type::UInt => {
                push_i128(&mut lo, 0);
                push_i128(&mut hi, 0xffff_ffff_ffff_ffff);
            },
            Type::U128 => {
                push_i128(&mut lo, 0);
                push_u128(&mut hi, u128::MAX);
                assert(decimal_int(0xffff_ffff_ffff_ffff_ffff_ffff_ffff_ffff) == decimal(u128::MAX as nat));
            },
            _ => {
                push_str(&mut lo, "?");
                push_str(&mut hi, "?");
                proof {
                    reveal_strlit("?");
                }
            },
        }
        (lo, hi)
    }
}

impl SemanticAnalyzer {
    fn is_integer_type(&self, ty: &Type) -> (r: bool)
        ensures
            r == is_integer_spec(*ty),
    {
        match ty {
            Type::Int | Type::UInt | Type::I8 | Type::I16 | Type::I32 | Type::I64 | Type::I128 | Type::U8
            | Type::U16 | Type::U32 | Type::U64 | Type::U128 => true,
            _ => false,
        }
    }

    fn types_compatible(&self, expected: &Type, found: &Type) -> (r: bool)
        ensures
            r == compatible_spec(*expected, *found),
    {
        match (expected, found) {
            (Type::Int, Type::I8) | (Type::Int, Type::I16) | (Type::Int, Type::I32) | (Type::Int, Type::I64)
            | (Type::Int, Type::I128) | (Type::Int, Type::Int) => true,
            (Type::UInt, Type::U8) | (Type::UInt, Type::U16) | (Type::UInt, Type::U32) | (Type::UInt, Type::U64)
            | (Type::UInt, Type::U128) | (Type::UInt, Type::UInt) => true,
            _ => expected.same(found),
        }
    }

    fn is_valid_binop(&self, left: &Type, op: &BinOp, right: &Type) -> (r: bool)
        ensures
            r == valid_binop_spec(*left, *op, *right),
    {
        match op {
            BinOp::Add | BinOp::Sub | BinOp::Mul | BinOp::Div | BinOp::Percent => self.is_integer_type(left)
                && self.is_integer_type(right),
            BinOp::DoubleEqual | BinOp::NotEqual | BinOp::Less | BinOp::Greater | BinOp::LessEqual
            | BinOp::GreaterEqual => self.types_compatible(left, right),
            BinOp::IndentityOp => matches!(left, Type::Bool) && matches!(right, Type::Bool),
            BinOp::CompoundAdd | BinOp::CompoundSub | BinOp::CompoundMul | BinOp::CompoundDiv => self.is_integer_type(
                left,
            ) && self.is_integer_type(right),
        }
    }

    fn result_type_of_binop(&self, left: &Type, op: &BinOp, right: &Type) -> (r: Type)
        ensures
            r == binop_result_spec(*left, *op),
    {
        match op {
            BinOp::Add | BinOp::Sub | BinOp::Mul | BinOp::Div | BinOp::Percent => left.clone(),
            BinOp::DoubleEqual | BinOp::NotEqual | BinOp::Less | BinOp::Greater | BinOp::LessEqual
            | BinOp::GreaterEqual | BinOp::IndentityOp => Type::Bool,
            BinOp::CompoundAdd | BinOp::CompoundSub | BinOp::CompoundMul | BinOp::CompoundDiv => left.clone(),
        }
    }

    fn integer_fits_in_type(&self, val: i128, ty: &Type) -> (r: bool)
        ensures
            r == fits_spec(val, *ty),
    {
        match ty {
            Type::I8 => val >= -0x80 && val <= 0x7f,
            Type::I16 => val >= -0x8000 && val <= 0x7fff,
            Type::I32 => val >= -0x8000_0000 && val <= 0x7fff_ffff,
            Type::I64 => val >= -0x8000_0000_0000_0000 && val <= 0x7fff_ffff_ffff_ffff,
            Type::I128 => true,
            Type::U8 => val >= 0 && val <= 0xff,
            Type::U16 => val >= 0 && val <= 0xffff,
            Type::U32 => val >= 0 && val <= 0xffff_ffff,
            Type::U64 => val >= 0 && val <= 0xffff_ffff_ffff_ffff,
            Type::U128 => val >= 0,
            Type::Int => val >= -0x8000_0000_0000_0000 && val <= 0x7fff_ffff_ffff_ffff,
            Type::UInt => val >= 0 && val <= 0xffff_ffff_ffff_ffff,
            _ => true,
        }
    }

    fn extract_integer_literal(&self, expr: &Expr) -> (r: Option<i128>)
        ensures
            r == literal_value(expr.view()),
    {
        proof {
            reveal(Expr::view);
        }
        match expr {
            Expr::IntLiteral(v) => Some(*v as i128),
            Expr::UIntLiteral(v) => Some(*v as i128),
            Expr::I128Literal(v) => Some(*v),
            Expr::U128Literal(v) => Some(*v as i128),
            Expr::Int8(v) => Some(*v as i128),
            Expr::Int16(v) => Some(*v as i128),
            Expr::Int32(v) => Some(*v as i128),
            Expr::Int64(v) => Some(*v as i128),
            Expr::Int128(v) => Some(*v),
            Expr::UInt8(v) => Some(*v as i128),
            Expr::UInt16(v) => Some(*v as i128),
            Expr::UInt32(v) => Some(*v as i128),
            Expr::UInt64(v) => Some(*v as i128),
            Expr::UInt128(v) => Some(*v as i128),
            Expr::Int(v) => Some(*v as i128),
            Expr::UInt(v) => Some(*v as i128),
            _ => None,
        }
    }
}

// ---------------------------------------------------------------------
// The analyzer's state
// ---------------------------------------------------------------------

fn find_in(scope: &Vec<(String, SymbolInfo)>, name: &String) -> (r: Option<SymbolInfo>)
    ensures
        r == find_symbol(scope@, name@, 0),
{
    let mut i: usize = 0;
    while i < scope.len()
        invariant
            i <= scope@.len(),
            find_symbol(scope@, name@, 0) == find_symbol(scope@, name@, i as int),
        decreases scope.len() - i,
    {
        if scope[i].0 == *name {
            return Some(scope[i].1.clone());
        }
        i += 1;
    }
    None
}

impl SemanticAnalyzer {
    pub fn new() -> (r: Self)
        ensures
            r@ == initial_state(),
    {
        let mut scopes: Vec<Vec<(String, SymbolInfo)>> = Vec::new();
        scopes.push(Vec::new());
        let r = Self { scopes, functions: Vec::new(), current_function: None, loop_depth: 0, errors: Vec::new() };
        assert(r@.scopes =~= initial_state().scopes);
        assert(r@.functions =~= initial_state().functions);
        r
    }

    fn error(&mut self, kind: SemanticErrorKind, message: SemanticMessage)
        ensures
            final(self)@ == push_err(old(self)@, kind, message),
    {
        self.errors.push(SemanticError { kind, message });
        assert(final(self)@.scopes =~= old(self)@.scopes);
    }

    fn enter_scope(&mut self)
        ensures
            final(self)@ == enter_spec(old(self)@),
    {
        self.scopes.push(Vec::new());
        assert(self@.scopes =~= enter_spec(old(self)@).scopes);
    }

    fn exit_scope(&mut self)
        ensures
            final(self)@ == exit_spec(old(self)@),
    {
        let _ = self.scopes.pop();
        assert(self@.scopes =~= exit_spec(old(self)@).scopes);
    }

    fn lookup_var(&self, name: &String) -> (r: Option<SymbolInfo>)
        ensures
            r == lookup_spec(self@.scopes, name@),
    {
        let mut k: usize = self.scopes.len();
        while k > 0
            invariant
                k <= self.scopes@.len(),
                lookup_spec(self@.scopes, name@) == lookup_below(self@.scopes, name@, k as int),
            decreases k,
        {
            assert(self@.scopes[k - 1] == self.scopes@[k - 1]@);
            match find_in(&self.scopes[k - 1], name) {
                Some(info) => {
                    return Some(info);
                },
                None => {},
            }
            k -= 1;
        }
        None
    }

    fn find_fn(&self, name: &String) -> (r: Option<FunctionInfo>)
        ensures
            match r {
                Some(f) => find_function(self@.functions, name@, 0) == Some(f.view()),
                None => find_function(self@.functions, name@, 0) is None,
            },
    {
        let mut i: usize = 0;
        while i < self.functions.len()
            invariant
                i <= self.functions@.len(),
                find_function(self@.functions, name@, 0) == find_function(self@.functions, name@, i as int),
            decreases self.functions.len() - i,
        {
            if self.functions[i].0 == *name {
                return Some(self.functions[i].1.clone());
            }
            i += 1;
        }
        None
    }

    fn declare_var(&mut self, name: String, ty: Type, mutability: Mutability)
        ensures
            final(self)@ == declare_spec(old(self)@, name, ty, mutability),
    {
        let n = self.scopes.len();
        if n == 0 {
            return;
        }
        assert(self@.scopes.last() == self.scopes@[n - 1]@);
        let found = find_in(&self.scopes[n - 1], &name);
        if found.is_some() {
            self.error(SemanticErrorKind::RedeclaredVariable, SemanticMessage::RedeclaredVariable(name));
        } else {
            let ghost entry = (name, SymbolInfo { ty, mutability, initialized: true });
            let mut last = self.scopes.pop().unwrap();
            last.push((name, SymbolInfo { ty, mutability, initialized: true }));
            self.scopes.push(last);
            assert(self@.scopes =~= declare_spec(old(self)@, entry.0, entry.1.ty, entry.1.mutability).scopes);
        }
    }

    fn register_function(&mut self, func: &FuncDecl)
        ensures
            final(self)@ == register_spec(old(self)@, func.name, func.params@, func.return_type),
    {
        if self.find_fn(&func.name).is_some() {
            self.error(SemanticErrorKind::RedeclaredVariable, SemanticMessage::RedeclaredFunction(func.name.clone()));
        } else {
            let info = FunctionInfo { params: clone_params(&func.params), return_type: clone_opt_type(&func.return_type) };
            self.functions.push((func.name.clone(), info));
            assert(self@.functions =~= register_spec(old(self)@, func.name, func.params@, func.return_type).functions);
        }
    }
}

// ---------------------------------------------------------------------
// Checking expressions
// ---------------------------------------------------------------------

impl SemanticAnalyzer {
    fn check_expr(&mut self, expr: &Expr) -> (r: Type)
        ensures
            (r, final(self)@) == check_expr_spec(old(self)@, expr.view()),
            only_errors_added(old(self)@, final(self)@),
        decreases expr, 2nat,
    {
        proof {
            reveal(Expr::view);
        }
        match expr {
            Expr::IntLiteral(v) => {
                if *v >= -0x80 && *v <= 0x7f {
                    Type::I8
                } else if *v >= -0x8000 && *v <= 0x7fff {
                    Type::I16
                } else if *v >= -0x8000_0000 && *v <= 0x7fff_ffff {
                    Type::I32
                } else {
                    Type::I64
                }
            },
            Expr::UIntLiteral(v) => {
                if *v <= 0xff {
                    Type::U8
                } else if *v <= 0xffff {
                    Type::U16
                } else if *v <= 0xffff_ffff {
                    Type::U32
                } else {
                    Type::U64
                }
            },
            Expr::I128Literal(_) => Type::I128,
            Expr::U128Literal(_) => Type::U128,
            Expr::BoolLiteral(_) => Type::Bool,
            Expr::StringLiteral(_) => Type::Str,
            Expr::UInt8(_) => Type::U8,
            Expr::UInt16(_) => Type::U16,
            Expr::UInt32(_) => Type::U32,
            Expr::UInt64(_) => Type::U64,
            Expr::UInt128(_) => Type::U128,
            Expr::Int8(_) => Type::I8,
            Expr::Int16(_) => Type::I16,
            Expr::Int32(_) => Type::I32,
            Expr::Int64(_) => Type::I64,
            Expr::Int128(_) => Type::I128,
            Expr::Int(_) => Type::Int,
            Expr::UInt(_) => Type::UInt,
            Expr::Ident(name) => match self.lookup_var(name) {
                Some(info) => info.ty,
                None => {
                    self.error(SemanticErrorKind::UndeclaredVariable, SemanticMessage::UndeclaredVariable(name.clone()));
                    Type::Void
                },
            },
            Expr::Call { name, args } => {
                proof {
                    lemma_call_view(*name, *args);
                }
                self.check_call(name, args)
            },
            Expr::BinaryOp { left, op, right } => {
                let lt = self.check_expr(left);
                let rt = self.check_expr(right);
                if lt.same(&Type::Void) || rt.same(&Type::Void) {
                    return Type::Void;
                }
                let ut = if self.types_compatible(&lt, &rt) {
                    lt
                } else if self.types_compatible(&rt, &lt) {
                    rt
                } else {
                    self.error(
                        SemanticErrorKind::InvalidOperation,
                        SemanticMessage::InvalidBinary { op: *op, left: lt, right: rt },
                    );
                    return Type::Void;
                };
                match op {
                    BinOp::Add | BinOp::Sub | BinOp::Mul | BinOp::Div | BinOp::Percent => {
                        if !self.is_integer_type(&ut) {
                            self.error(SemanticErrorKind::InvalidOperation, SemanticMessage::IntegerOperands(*op));
                            return Type::Void;
                        }
                        ut
                    },
                    BinOp::Greater | BinOp::Less | BinOp::GreaterEqual | BinOp::LessEqual | BinOp::DoubleEqual
                    | BinOp::NotEqual => {
                        if !self.is_integer_type(&ut) {
                            self.error(SemanticErrorKind::InvalidOperation, SemanticMessage::IntegerOperands(*op));
                            return Type::Void;
                        }
                        Type::Bool
                    },
                    _ => Type::Void,
                }
            },
            Expr::Identity { expr, negated: _ } => {
                let ty = self.check_expr(expr);
                if !matches!(ty, Type::Bool) {
                    self.error(SemanticErrorKind::TypeMismatch, SemanticMessage::IdentityNotBool(ty));
                }
                Type::Bool
            },
            Expr::Vec { values, size } => {
                proof {
                    lemma_vec_view(*values, *size);
                }
                if values.len() == 0 {
                    self.error(SemanticErrorKind::InvalidOperation, SemanticMessage::EmptyVector);
                    return Type::Void;
                }
                let first_type = self.check_expr(&values[0]);
                self.check_elements(&first_type, values);
                Type::Vec { inner: Box::new(first_type), size: values.len() }
            },
            Expr::Unknown => Type::Void,
        }
    }

    /// A call: the function must be declared; the number of arguments and
    /// each argument's type are checked against its parameters.
    fn check_call(&mut self, name: &String, args: &Vec<Expr>) -> (r: Type)
        ensures
            (r, final(self)@) == check_expr_spec(old(self)@, ExprV::Call { name: *name, args: exprs_view(args@) }),
            only_errors_added(old(self)@, final(self)@),
        decreases args, 1nat,
    {
        let func_info = match self.find_fn(name) {
            Some(info) => info,
            None => {
                self.error(SemanticErrorKind::UndeclaredFunction, SemanticMessage::UndeclaredFunction(name.clone()));
                return Type::Void;
            },
        };
        if args.len() != func_info.params.len() {
            self.error(
                SemanticErrorKind::ArgumentCountMismatch,
                SemanticMessage::ArgumentCount {
                    name: name.clone(),
                    expected: func_info.params.len(),
                    found: args.len(),
                },
            );
        }
        self.check_args(name, &func_info.params, args);
        match func_info.return_type {
            Some(t) => t,
            None => Type::Void,
        }
    }

    fn check_args(&mut self, name: &String, params: &Vec<(Type, String)>, args: &Vec<Expr>)
        ensures
            final(self)@ == check_args_spec(old(self)@, *name, params@, exprs_view(args@), 0),
            only_errors_added(old(self)@, final(self)@),
        decreases args, 0nat,
    {
        let ghost goal = check_args_spec(old(self)@, *name, params@, exprs_view(args@), 0);
        let mut i: usize = 0;
        while i < args.len()
            invariant
                i <= args@.len(),
                goal == check_args_spec(self@, *name, params@, exprs_view(args@), i as int),
                only_errors_added(old(self)@, self@),
            decreases args.len() - i,
        {
            if i < params.len() {
                let arg_type = self.check_expr(&args[i]);
                if !self.types_compatible(&params[i].0, &arg_type) {
                    self.error(
                        SemanticErrorKind::ArgumentTypeMismatch,
                        SemanticMessage::ArgumentType {
                            index: i + 1,
                            name: name.clone(),
                            expected: params[i].0.clone(),
                            found: arg_type,
                        },
                    );
                }
            }
            i += 1;
        }
    }

    fn check_elements(&mut self, first: &Type, values: &Vec<Expr>)
        requires
            values@.len() > 0,
        ensures
            final(self)@ == check_elements_spec(old(self)@, *first, exprs_view(values@), 1),
            only_errors_added(old(self)@, final(self)@),
        decreases values, 0nat,
    {
        let ghost goal = check_elements_spec(old(self)@, *first, exprs_view(values@), 1);
        let mut i: usize = 1;
        while i < values.len()
            invariant
                1 <= i <= values@.len(),
                goal == check_elements_spec(self@, *first, exprs_view(values@), i as int),
                only_errors_added(old(self)@, self@),
            decreases values.len() - i,
        {
            let val_type = self.check_expr(&values[i]);
            if !self.types_compatible(first, &val_type) {
                self.error(
                    SemanticErrorKind::TypeMismatch,
                    SemanticMessage::VectorElementMismatch { expected: first.clone(), found: val_type },
                );
            }
            i += 1;
        }
    }

    fn check_exprs(&mut self, exprs: &Vec<Expr>)
        ensures
            final(self)@ == check_exprs_spec(old(self)@, exprs_view(exprs@), 0),
            only_errors_added(old(self)@, final(self)@),
    {
        let ghost goal = check_exprs_spec(old(self)@, exprs_view(exprs@), 0);
        let mut i: usize = 0;
        while i < exprs.len()
            invariant
                i <= exprs@.len(),
                goal == check_exprs_spec(self@, exprs_view(exprs@), i as int),
                only_errors_added(old(self)@, self@),
            decreases exprs.len() - i,
        {
            self.check_expr(&exprs[i]);
            i += 1;
        }
    }
}

// ---------------------------------------------------------------------
// Checking statements
// ---------------------------------------------------------------------

proof fn lemma_is_return(s: Stmt)
    ensures
        (s is Return) == (s.view() is Return),
{
    reveal(Stmt::view);
}

pub fn body_has_return(body: &Vec<Stmt>) -> (r: bool)
    ensures
        r == has_return(stmts_view(body@)),
{
    let ghost sv = stmts_view(body@);
    let mut i: usize = 0;
    while i < body.len()
        invariant
            i <= body@.len(),
            sv == stmts_view(body@),
            forall|j: int| 0 <= j < i ==> !(#[trigger] sv[j] is Return),
        decreases body.len() - i,
    {
        proof {
            lemma_is_return(body@[i as int]);
        }
        if matches!(body[i], Stmt::Return(_)) {
            assert(sv[i as int] is Return);
            return true;
        }
        i += 1;
    }
    false
}

impl SemanticAnalyzer {
    fn check_stmt(&mut self, stmt: &Stmt)
        requires
            old(self)@.loop_depth + loops_in(stmt.view()) <= usize::MAX,
        ensures
            final(self)@ == check_stmt_spec(old(self)@, stmt.view()),
            old(self)@.loop_depth <= final(self)@.loop_depth <= old(self)@.loop_depth + loops_in(stmt.view()),
        decreases stmt, 3nat,
    {
        match stmt {
            Stmt::VarDecl(var) => {
                proof {
                    lemma_simple_stmt_views(var.name, var.ty, var.value, var.mutability, BinOp::Add);
                }
                self.check_var_decl(var);
            },
            Stmt::FuncDecl(func) => {
                proof {
                    lemma_func_view(*func);
                }
                self.check_func_decl(func);
            },
            Stmt::Assignment(assign) => {
                proof {
                    lemma_simple_stmt_views(assign.target, Type::Int, assign.value, Mutability::Const, BinOp::Add);
                }
                self.check_assignment(assign);
            },
            Stmt::CompoundAssign { target, op, value } => {
                proof {
                    lemma_simple_stmt_views(*target, Type::Int, *value, Mutability::Const, *op);
                }
                self.check_compound_assign(target, op, value);
            },
            Stmt::IfStatement(if_stmt) => {
                proof {
                    lemma_if_view(*if_stmt);
                }
                self.check_if(if_stmt);
            },
            Stmt::WhenStatement(w) => {
                proof {
                    lemma_when_view(*w);
                }
            },
            Stmt::ForLoop(for_loop) => {
                proof {
                    lemma_for_view(*for_loop);
                }
                self.check_for(for_loop);
            },
            Stmt::Loop(c7_loop) => {
                proof {
                    lemma_loop_view(*c7_loop);
                }
                self.check_loop(c7_loop);
            },
            Stmt::Return(expr) => {
                proof {
                    lemma_simple_stmt_views(arbitrary(), Type::Int, *expr, Mutability::Const, BinOp::Add);
                }
                self.check_return(expr);
            },
            Stmt::Print(exprs) => {
                proof {
                    lemma_print_view(*exprs);
                }
                self.check_exprs(exprs);
            },
            Stmt::Break => {
                proof {
                    lemma_simple_stmt_views(arbitrary(), Type::Int, arbitrary(), Mutability::Const, BinOp::Add);
                }
                if self.loop_depth == 0 {
                    self.error(SemanticErrorKind::InvalidOperation, SemanticMessage::BreakOutsideLoop);
                }
            },
            Stmt::Continue => {
                proof {
                    lemma_simple_stmt_views(arbitrary(), Type::Int, arbitrary(), Mutability::Const, BinOp::Add);
                }
                if self.loop_depth == 0 {
                    self.error(SemanticErrorKind::InvalidOperation, SemanticMessage::ContinueOutsideLoop);
                }
            },
            Stmt::WhileLoop(while_loop) => {
                proof {
                    lemma_while_view(*while_loop);
                }
                self.check_while(while_loop);
            },
        }
    }

    fn check_block(&mut self, body: &Vec<Stmt>)
        requires
            old(self)@.loop_depth + block_loops(stmts_view(body@), 0) <= usize::MAX,
        ensures
            final(self)@ == check_stmts_spec(old(self)@, stmts_view(body@), 0),
            old(self)@.loop_depth <= final(self)@.loop_depth <= old(self)@.loop_depth + block_loops(stmts_view(body@), 0),
        decreases body, 1nat,
    {
        let ghost sv = stmts_view(body@);
        let ghost goal = check_stmts_spec(old(self)@, sv, 0);
        let mut i: usize = 0;
        while i < body.len()
            invariant
                i <= body@.len(),
                sv == stmts_view(body@),
                goal == check_stmts_spec(self@, sv, i as int),
                old(self)@.loop_depth <= self@.loop_depth,
                self@.loop_depth + block_loops(sv, i as int) <= old(self)@.loop_depth + block_loops(sv, 0),
                old(self)@.loop_depth + block_loops(sv, 0) <= usize::MAX,
            decreases body.len() - i,
        {
            self.check_stmt(&body[i]);
            i += 1;
        }
    }

    fn check_while(&mut self, while_loop: &WhileLoop)
        requires
            old(self)@.loop_depth + 1 + block_loops(stmts_view(while_loop.body@), 0) <= usize::MAX,
        ensures
            final(self)@ == check_stmt_spec(
                old(self)@,
                StmtV::WhileLoop { cond: while_loop.cond.view(), body: stmts_view(while_loop.body@) },
            ),
            old(self)@.loop_depth <= final(self)@.loop_depth <= old(self)@.loop_depth + 1 + block_loops(
                stmts_view(while_loop.body@),
                0,
            ),
        decreases while_loop, 2nat,
    {
        let cond_type = self.check_expr(&while_loop.cond);
        if !matches!(cond_type, Type::Bool) {
            self.error(SemanticErrorKind::TypeMismatch, SemanticMessage::WhileConditionNotBool(cond_type));
        }
        self.enter_scope();
        self.loop_depth = self.loop_depth + 1;
        self.check_block(&while_loop.body);
        self.exit_scope();
    }

    fn check_loop(&mut self, loop_statement: &Loop)
        requires
            old(self)@.loop_depth + 1 + block_loops(stmts_view(loop_statement.body@), 0) <= usize::MAX,
        ensures
            final(self)@ == check_stmt_spec(old(self)@, StmtV::Loop { body: stmts_view(loop_statement.body@) }),
            old(self)@.loop_depth <= final(self)@.loop_depth <= old(self)@.loop_depth + 1 + block_loops(
                stmts_view(loop_statement.body@),
                0,
            ),
        decreases loop_statement, 2nat,
    {
        self.enter_scope();
        self.loop_depth = self.loop_depth + 1;
        self.check_block(&loop_statement.body);
        self.loop_depth = self.loop_depth - 1;
        self.exit_scope();
    }

    fn check_if(&mut self, if_stmt: &IfStatement)
        requires
            old(self)@.loop_depth + block_loops(stmts_view(if_stmt.then_branch@), 0) + match opt_block_view(
                if_stmt.else_branch,
            ) {
                Some(b) => block_loops(b, 0),
                None => 0,
            } <= usize::MAX,
        ensures
            final(self)@ == check_stmt_spec(
                old(self)@,
                StmtV::IfStatement {
                    condition: if_stmt.condition.view(),
                    then_branch: stmts_view(if_stmt.then_branch@),
                    else_branch: opt_block_view(if_stmt.else_branch),
                },
            ),
            old(self)@.loop_depth <= final(self)@.loop_depth <= old(self)@.loop_depth + block_loops(
                stmts_view(if_stmt.then_branch@),
                0,
            ) + match opt_block_view(if_stmt.else_branch) {
                Some(b) => block_loops(b, 0),
                None => 0,
            },
        decreases if_stmt, 2nat,
    {
        let cond_type = self.check_expr(&if_stmt.condition);
        if !matches!(cond_type, Type::Bool) {
            self.error(SemanticErrorKind::TypeMismatch, SemanticMessage::IfConditionNotBool(cond_type));
        }
        self.enter_scope();
        self.check_block(&if_stmt.then_branch);
        self.exit_scope();
        if let Some(else_branch) = &if_stmt.else_branch {
            self.enter_scope();
            self.check_block(else_branch);
            self.exit_scope();
        }
    }

    fn check_for_head(&mut self, for_loop: &ForLoop)
        ensures
            final(self)@ == for_head_spec(old(self)@, for_loop.start.view(), opt_expr_view(for_loop.step), for_loop.end.view()),
            only_errors_added(old(self)@, final(self)@),
    {
        let start_type = self.check_expr(&for_loop.start);
        let step_type: Option<Type> = match &for_loop.step {
            Some(step) => Some(self.check_expr(step)),
            None => None,
        };
        let end_type = self.check_expr(&for_loop.end);
        if !self.is_integer_type(&start_type) {
            self.error(SemanticErrorKind::TypeMismatch, SemanticMessage::ForStartNotInteger(start_type));
        }
        proof {
            reveal(Expr::view);
        }
        if let Some(Expr::IntLiteral(value)) = &for_loop.step {
            if *value == 0 {
                self.error(SemanticErrorKind::InvalidStep, SemanticMessage::ZeroStep);
            }
        }
        match &step_type {
            Some(t) => {
                if !self.is_integer_type(t) {
                    self.error(SemanticErrorKind::TypeMismatch, SemanticMessage::ForStepNotInteger(clone_opt_type(&step_type)));
                }
            },
            None => {},
        }
        if !self.is_integer_type(&end_type) {
            self.error(SemanticErrorKind::TypeMismatch, SemanticMessage::ForEndNotInteger(end_type));
        }
    }

    fn check_for(&mut self, for_loop: &ForLoop)
        requires
            old(self)@.loop_depth + 1 + block_loops(stmts_view(for_loop.body@), 0) <= usize::MAX,
        ensures
            final(self)@ == check_stmt_spec(
                old(self)@,
                StmtV::ForLoop {
                    var: for_loop.var,
                    start: for_loop.start.view(),
                    step: opt_expr_view(for_loop.step),
                    end: for_loop.end.view(),
                    body: stmts_view(for_loop.body@),
                },
            ),
            old(self)@.loop_depth <= final(self)@.loop_depth <= old(self)@.loop_depth + 1 + block_loops(
                stmts_view(for_loop.body@),
                0,
            ),
        decreases for_loop, 2nat,
    {
        self.check_for_head(for_loop);
        self.enter_scope();
        self.loop_depth = self.loop_depth + 1;
        self.declare_var(for_loop.var.clone(), Type::Int, Mutability::Const);
        self.check_block(&for_loop.body);
        self.exit_scope();
    }

    fn declare_params(&mut self, params: &Vec<(Type, String)>)
        ensures
            final(self)@ == declare_params_spec(old(self)@, params@, 0),
            final(self)@.loop_depth == old(self)@.loop_depth,
            final(self)@.current_function == old(self)@.current_function,
    {
        let ghost goal = declare_params_spec(old(self)@, params@, 0);
        let mut i: usize = 0;
        while i < params.len()
            invariant
                i <= params@.len(),
                goal == declare_params_spec(self@, params@, i as int),
                self@.loop_depth == old(self)@.loop_depth,
                self@.current_function == old(self)@.current_function,
            decreases params.len() - i,
        {
            self.declare_var(params[i].1.clone(), params[i].0.clone(), Mutability::Mutable);
            i += 1;
        }
    }

    fn check_func_decl(&mut self, func: &FuncDecl)
        requires
            old(self)@.loop_depth + block_loops(stmts_view(func.body@), 0) <= usize::MAX,
        ensures
            final(self)@ == check_stmt_spec(
                old(self)@,
                StmtV::FuncDecl {
                    name: func.name,
                    params: func.params@,
                    return_type: func.return_type,
                    body: stmts_view(func.body@),
                },
            ),
            old(self)@.loop_depth <= final(self)@.loop_depth <= old(self)@.loop_depth + block_loops(
                stmts_view(func.body@),
                0,
            ),
        decreases func, 2nat,
    {
        self.current_function = Some(func.name.clone());
        self.enter_scope();
        self.declare_params(&func.params);
        let has_return = body_has_return(&func.body);
        self.check_block(&func.body);
        if func.return_type.is_some() && !matches!(func.return_type, Some(Type::Void)) && !has_return {
            self.error(SemanticErrorKind::MissingReturn, SemanticMessage::MissingReturn(func.name.clone()));
        }
        self.exit_scope();
        self.current_function = None;
    }
}

impl SemanticAnalyzer {
    fn check_var_decl(&mut self, var: &VarDecl)
        ensures
            final(self)@ == var_decl_spec(old(self)@, var.name, var.ty, var.value.view(), var.mutability),
            final(self)@.loop_depth == old(self)@.loop_depth,
    {
        let expr_type = self.check_expr(&var.value);
        if let Some(literal_val) = self.extract_integer_literal(&var.value) {
            if !self.integer_fits_in_type(literal_val, &var.ty) {
                self.error(
                    SemanticErrorKind::IntegerOverflow,
                    SemanticMessage::IntegerOutOfRange { value: literal_val, ty: var.ty.clone() },
                );
                return;
            }
        }
        if !self.types_compatible(&var.ty, &expr_type) {
            self.error(
                SemanticErrorKind::TypeMismatch,
                SemanticMessage::VariableTypeMismatch { name: var.name.clone(), expected: var.ty.clone(), found: expr_type },
            );
        }
        self.declare_var(var.name.clone(), var.ty.clone(), var.mutability);
    }

    fn check_assignment(&mut self, assign: &Assignment)
        ensures
            final(self)@ == assignment_spec(old(self)@, assign.target, assign.value.view()),
            final(self)@.loop_depth == old(self)@.loop_depth,
    {
        let var_info = match self.lookup_var(&assign.target) {
            Some(info) => info,
            None => {
                self.error(
                    SemanticErrorKind::UndeclaredVariable,
                    SemanticMessage::UndeclaredVariable(assign.target.clone()),
                );
                return;
            },
        };
        if var_info.mutability == Mutability::Const {
            self.error(SemanticErrorKind::ImmutableAssignment, SemanticMessage::ConstAssignment(assign.target.clone()));
        }
        let expr_type = self.check_expr(&assign.value);
        if !self.types_compatible(&var_info.ty, &expr_type) {
            self.error(
                SemanticErrorKind::TypeMismatch,
                SemanticMessage::AssignmentTypeMismatch {
                    name: assign.target.clone(),
                    expected: var_info.ty,
                    found: expr_type,
                },
            );
        }
    }

    fn check_compound_assign(&mut self, target: &String, op: &BinOp, value: &Expr)
        ensures
            final(self)@ == compound_spec(old(self)@, *target, *op, value.view()),
            final(self)@.loop_depth == old(self)@.loop_depth,
    {
        let var_info = match self.lookup_var(target) {
            Some(info) => info,
            None => {
                self.error(SemanticErrorKind::UndeclaredVariable, SemanticMessage::UndeclaredVariable(target.clone()));
                return;
            },
        };
        if var_info.mutability == Mutability::Const {
            self.error(SemanticErrorKind::ImmutableAssignment, SemanticMessage::ConstAssignment(target.clone()));
        }
        let expr_type = self.check_expr(value);
        if !self.is_valid_binop(&var_info.ty, op, &expr_type) {
            self.error(
                SemanticErrorKind::InvalidOperation,
                SemanticMessage::InvalidCompound { op: *op, left: var_info.ty, right: expr_type },
            );
        }
    }

    fn check_return(&mut self, expr: &Expr)
        ensures
            final(self)@ == return_spec(old(self)@, expr.view()),
            final(self)@.loop_depth == old(self)@.loop_depth,
    {
        let expr_type = self.check_expr(expr);
        let current: Option<String> = match &self.current_function {
            Some(n) => Some(n.clone()),
            None => None,
        };
        if let Some(func_name) = current {
            if let Some(func_info) = self.find_fn(&func_name) {
                if let Some(expected_type) = func_info.return_type {
                    if !self.types_compatible(&expected_type, &expr_type) {
                        self.error(
                            SemanticErrorKind::WrongReturnType,
                            SemanticMessage::WrongReturnType { name: func_name, expected: expected_type, found: expr_type },
                        );
                    }
                }
            }
        }
    }

    /// Checks a whole program: registers every function declared at the
    /// top level, then checks every statement in order. The errors found
    /// are kept and returned; the result is a success when there are none.
    pub fn analyze(&mut self, stmts: &[Stmt]) -> (r: AnalysisResult)
        requires
            old(self)@.loop_depth + block_loops(stmts_view(stmts@), 0) <= usize::MAX,
        ensures
            final(self)@ == analyze_spec(old(self)@, stmts_view(stmts@)),
            r.errors@ == final(self)@.errors,
            r.success == (r.errors@.len() == 0),
    {
        let ghost sv = stmts_view(stmts@);
        let ghost registered = register_all_spec(old(self)@, sv, 0);
        let mut i: usize = 0;
        while i < stmts.len()
            invariant
                i <= stmts@.len(),
                sv == stmts_view(stmts@),
                registered == register_all_spec(self@, sv, i as int),
                self@.loop_depth == old(self)@.loop_depth,
            decreases stmts.len() - i,
        {
            proof {
                reveal(Stmt::view);
            }
            if let Stmt::FuncDecl(func) = &stmts[i] {
                proof {
                    lemma_func_view(*func);
                }
                self.register_function(func);
            }
            i += 1;
        }
        let ghost goal = check_stmts_spec(self@, sv, 0);
        let ghost start_depth = self@.loop_depth;
        let mut i: usize = 0;
        while i < stmts.len()
            invariant
                i <= stmts@.len(),
                sv == stmts_view(stmts@),
                goal == check_stmts_spec(self@, sv, i as int),
                self@.loop_depth + block_loops(sv, i as int) <= start_depth + block_loops(sv, 0),
                start_depth + block_loops(sv, 0) <= usize::MAX,
            decreases stmts.len() - i,
        {
            self.check_stmt(&stmts[i]);
            i += 1;
        }
        let errors = clone_errors(&self.errors);
        AnalysisResult { success: self.errors.len() == 0, errors }
    }
}

impl SemanticAnalyzer {
    fn const_eval(&self, expr: &Expr) -> (r: Option<i128>)
        requires
            const_eval_ok(expr.view()),
        ensures
            match r {
                Some(v) => const_value(expr.view()) == Some(v as int),
                None => const_value(expr.view()) is None,
            },
        decreases expr,
    {
        proof {
            reveal(Expr::view);
        }
        match expr {
            Expr::IntLiteral(v) => Some(*v as i128),
            Expr::UIntLiteral(v) => Some(*v as i128),
            Expr::Int8(v) => Some(*v as i128),
            Expr::Int16(v) => Some(*v as i128),
            Expr::Int32(v) => Some(*v as i128),
            Expr::Int64(v) => Some(*v as i128),
            Expr::Int128(v) => Some(*v),
            Expr::UInt8(v) => Some(*v as i128),
            Expr::UInt16(v) => Some(*v as i128),
            Expr::UInt32(v) => Some(*v as i128),
            Expr::UInt64(v) => Some(*v as i128),
            Expr::UInt128(v) => Some(*v as i128),
            Expr::BinaryOp { left, op, right } => {
                let l = self.const_eval(left)?;
                let r = self.const_eval(right)?;
                match op {
                    BinOp::Add => Some(l + r),
                    BinOp::Sub => Some(l - r),
                    BinOp::Mul => Some(l * r),
                    BinOp::Div => {
                        assert(!(l == i128::MIN && r == -1)) by {
                            if l == i128::MIN && r == -1 {
                                assert(trunc_div(l as int, r as int) == 0x8000_0000_0000_0000_0000_0000_0000_0000)
                                    by (nonlinear_arith)
                                    requires l == i128::MIN, r == -1;
                            }
                        }
                        Some(l / r)
                    },
                    BinOp::Percent => {
                        assert(!(l == i128::MIN && r == -1)) by {
                            if l == i128::MIN && r == -1 {
                                assert(trunc_div(l as int, r as int) == 0x8000_0000_0000_0000_0000_0000_0000_0000)
                                    by (nonlinear_arith)
                                    requires l == i128::MIN, r == -1;
                            }
                        }
                        Some(l % r)
                    },
                    _ => None,
                }
            },
            _ => None,
        }
    }
}

// ---------------------------------------------------------------------
// Laws
// ---------------------------------------------------------------------

/// `b` is `a` with errors added after those of `a`.
pub open spec fn extends(a: AState, b: AState) -> bool {
    &&& only_errors_added(a, b)
    &&& a.errors.len() <= b.errors.len()
    &&& b.errors.subrange(0, a.errors.len() as int) == a.errors
}

proof fn lemma_extends_trans(a: AState, b: AState, c: AState)
    requires
        extends(a, b),
        extends(b, c),
    ensures
        extends(a, c),
{
    assert(c.errors.subrange(0, a.errors.len() as int) =~= c.errors.subrange(0, b.errors.len() as int).subrange(
        0,
        a.errors.len() as int,
    ));
}

proof fn lemma_push_err_extends(st: AState, kind: SemanticErrorKind, message: SemanticMessage)
    ensures
        extends(st, push_err(st, kind, message)),
{
    assert(push_err(st, kind, message).errors.subrange(0, st.errors.len() as int) =~= st.errors);
}

/// Checking an expression changes nothing but the errors, and only adds
/// errors after those already found.
pub proof fn law_check_expr_only_adds_errors(st: AState, e: ExprV)
    ensures
        extends(st, check_expr_spec(st, e).1),
    decreases e, 0nat,
{
    assert(st.errors.subrange(0, st.errors.len() as int) =~= st.errors);
    match e {
        ExprV::Ident(name) => {
            lemma_push_err_extends(st, SemanticErrorKind::UndeclaredVariable, SemanticMessage::UndeclaredVariable(name));
        },
        ExprV::Call { name, args } => {
            lemma_push_err_extends(st, SemanticErrorKind::UndeclaredFunction, SemanticMessage::UndeclaredFunction(name));
            match find_function(st.functions, name@, 0) {
                Some(f) => {
                    let st1 = if args.len() != f.params.len() {
                        push_err(
                            st,
                            SemanticErrorKind::ArgumentCountMismatch,
                            SemanticMessage::ArgumentCount {
                                name,
                                expected: f.params.len() as usize,
                                found: args.len() as usize,
                            },
                        )
                    } else {
                        st
                    };
                    lemma_push_err_extends(
                        st,
                        SemanticErrorKind::ArgumentCountMismatch,
                        SemanticMessage::ArgumentCount {
                            name,
                            expected: f.params.len() as usize,
                            found: args.len() as usize,
                        },
                    );
                    lemma_args_only_add_errors(st1, name, f.params, args, 0);
                    lemma_extends_trans(st, st1, check_args_spec(st1, name, f.params, args, 0));
                },
                None => {},
            }
        },
        ExprV::BinaryOp { left, op, right } => {
            law_check_expr_only_adds_errors(st, *left);
            let (lt, st1) = check_expr_spec(st, *left);
            law_check_expr_only_adds_errors(st1, *right);
            let (rt, st2) = check_expr_spec(st1, *right);
            lemma_extends_trans(st, st1, st2);
            lemma_push_err_extends(st2, SemanticErrorKind::InvalidOperation, SemanticMessage::InvalidBinary { op, left: lt, right: rt });
            lemma_extends_trans(st, st2, push_err(st2, SemanticErrorKind::InvalidOperation, SemanticMessage::InvalidBinary { op, left: lt, right: rt }));
            lemma_push_err_extends(st2, SemanticErrorKind::InvalidOperation, SemanticMessage::IntegerOperands(op));
            lemma_extends_trans(st, st2, push_err(st2, SemanticErrorKind::InvalidOperation, SemanticMessage::IntegerOperands(op)));
        },
        ExprV::Identity { expr, negated } => {
            law_check_expr_only_adds_errors(st, *expr);
            let (t, st1) = check_expr_spec(st, *expr);
            lemma_push_err_extends(st1, SemanticErrorKind::TypeMismatch, SemanticMessage::IdentityNotBool(t));
            lemma_extends_trans(st, st1, push_err(st1, SemanticErrorKind::TypeMismatch, SemanticMessage::IdentityNotBool(t)));
        },
        ExprV::Vec { values, size } => {
            lemma_push_err_extends(st, SemanticErrorKind::InvalidOperation, SemanticMessage::EmptyVector);
            if values.len() > 0 {
                law_check_expr_only_adds_errors(st, values[0]);
                let (first, st1) = check_expr_spec(st, values[0]);
                lemma_elements_only_add_errors(st1, first, values, 1);
                lemma_extends_trans(st, st1, check_elements_spec(st1, first, values, 1));
            }
        },
        _ => {},
    }
}

proof fn lemma_args_only_add_errors(st: AState, name: String, params: Seq<(Type, String)>, args: Seq<ExprV>, i: int)
    ensures
        extends(st, check_args_spec(st, name, params, args, i)),
    decreases args, args.len() - i,
{
    assert(st.errors.subrange(0, st.errors.len() as int) =~= st.errors);
    if 0 <= i < args.len() {
        if i < params.len() {
            law_check_expr_only_adds_errors(st, args[i]);
            let (t, st1) = check_expr_spec(st, args[i]);
            let m = SemanticMessage::ArgumentType { index: (i + 1) as usize, name, expected: params[i].0, found: t };
            lemma_push_err_extends(st1, SemanticErrorKind::ArgumentTypeMismatch, m);
            let st2 = if !compatible_spec(params[i].0, t) {
                push_err(st1, SemanticErrorKind::ArgumentTypeMismatch, m)
            } else {
                st1
            };
            assert(st1.errors.subrange(0, st1.errors.len() as int) =~= st1.errors);
            lemma_extends_trans(st, st1, st2);
            lemma_args_only_add_errors(st2, name, params, args, i + 1);
            lemma_extends_trans(st, st2, check_args_spec(st2, name, params, args, i + 1));
        } else {
            lemma_args_only_add_errors(st, name, params, args, i + 1);
        }
    }
}

proof fn lemma_elements_only_add_errors(st: AState, first: Type, values: Seq<ExprV>, i: int)
    ensures
        extends(st, check_elements_spec(st, first, values, i)),
    decreases values, values.len() - i,
{
    assert(st.errors.subrange(0, st.errors.len() as int) =~= st.errors);
    if 0 <= i < values.len() {
        law_check_expr_only_adds_errors(st, values[i]);
        let (t, st1) = check_expr_spec(st, values[i]);
        let m = SemanticMessage::VectorElementMismatch { expected: first, found: t };
        lemma_push_err_extends(st1, SemanticErrorKind::TypeMismatch, m);
        let st2 = if !compatible_spec(first, t) {
            push_err(st1, SemanticErrorKind::TypeMismatch, m)
        } else {
            st1
        };
        assert(st1.errors.subrange(0, st1.errors.len() as int) =~= st1.errors);
        lemma_extends_trans(st, st1, st2);
        lemma_elements_only_add_errors(st2, first, values, i + 1);
        lemma_extends_trans(st, st2, check_elements_spec(st2, first, values, i + 1));
    }
}

/// Assigning to a variable declared `const` is always reported as an
/// assignment to an immutable variable, whatever the value.
pub proof fn law_const_is_immutable(st: AState, target: String, value: ExprV)
    requires
        lookup_spec(st.scopes, target@) matches Some(info) && info.mutability == Mutability::Const,
    ensures
        assignment_spec(st, target, value).errors.len() > st.errors.len(),
        assignment_spec(st, target, value).errors[st.errors.len() as int] == SemanticError::of(
            SemanticErrorKind::ImmutableAssignment,
            SemanticMessage::ConstAssignment(target),
        ),
{
    let info = lookup_spec(st.scopes, target@).unwrap();
    let st1 = push_err(st, SemanticErrorKind::ImmutableAssignment, SemanticMessage::ConstAssignment(target));
    law_check_expr_only_adds_errors(st1, value);
    let (t, st2) = check_expr_spec(st1, value);
    let m = SemanticMessage::AssignmentTypeMismatch { name: target, expected: info.ty, found: t };
    lemma_push_err_extends(st2, SemanticErrorKind::TypeMismatch, m);
    let st3 = if !compatible_spec(info.ty, t) { push_err(st2, SemanticErrorKind::TypeMismatch, m) } else { st2 };
    assert(st2.errors.subrange(0, st2.errors.len() as int) =~= st2.errors);
    lemma_extends_trans(st1, st2, st3);
    assert(st3.errors[st.errors.len() as int] == st3.errors.subrange(0, st1.errors.len() as int)[st.errors.len() as int]);
}

/// A declaration whose value is not an out-of-range integer literal and
/// whose type does not accept the value's type is reported as a type
/// mismatch.
pub proof fn law_declaration_type_checked(st: AState, name: String, ty: Type, value: ExprV, mutability: Mutability)
    requires
        !(literal_value(value) matches Some(v) && !fits_spec(v, ty)),
        !compatible_spec(ty, check_expr_spec(st, value).0),
    ensures
        ({
            let (t, st1) = check_expr_spec(st, value);
            &&& var_decl_spec(st, name, ty, value, mutability).errors.len() > st1.errors.len()
            &&& var_decl_spec(st, name, ty, value, mutability).errors[st1.errors.len() as int] == SemanticError::of(
                SemanticErrorKind::TypeMismatch,
                SemanticMessage::VariableTypeMismatch { name, expected: ty, found: t },
            )
        }),
{
    let (t, st1) = check_expr_spec(st, value);
    let st2 = push_err(st1, SemanticErrorKind::TypeMismatch, SemanticMessage::VariableTypeMismatch { name, expected: ty, found: t });
    let st3 = declare_spec(st2, name, ty, mutability);
    lemma_push_err_extends(st2, SemanticErrorKind::RedeclaredVariable, SemanticMessage::RedeclaredVariable(name));
    assert(st3.errors.len() >= st2.errors.len());
    assert(st3.errors[st1.errors.len() as int] == st2.errors[st1.errors.len() as int]) by {
        if st2.scopes.len() > 0 && find_symbol(st2.scopes.last(), name@, 0) is Some {
            assert(st3.errors == st2.errors.push(SemanticError::of(SemanticErrorKind::RedeclaredVariable, SemanticMessage::RedeclaredVariable(name))));
        }
    }
}

/// Every type accepts values of its own type.
pub proof fn law_compatible_reflexive(t: Type)
    ensures
        compatible_spec(t, t),
{
}

/// `int` accepts every signed integer type and `uint` every unsigned one.
pub proof fn law_compatible_widening(t: Type)
    ensures
        (t == Type::I8 || t == Type::I16 || t == Type::I32 || t == Type::I64 || t == Type::I128) ==> compatible_spec(
            Type::Int,
            t,
        ),
        (t == Type::U8 || t == Type::U16 || t == Type::U32 || t == Type::U64 || t == Type::U128) ==> compatible_spec(
            Type::UInt,
            t,
        ),
{
}

/// A `break` or `continue` outside any loop is reported; inside one it is
/// accepted.
pub proof fn law_break_needs_loop(st: AState)
    ensures
        st.loop_depth == 0 ==> check_stmt_spec(st, StmtV::Break) == push_err(
            st,
            SemanticErrorKind::InvalidOperation,
            SemanticMessage::BreakOutsideLoop,
        ),
        st.loop_depth != 0 ==> check_stmt_spec(st, StmtV::Break) == st,
        st.loop_depth == 0 ==> check_stmt_spec(st, StmtV::Continue) == push_err(
            st,
            SemanticErrorKind::InvalidOperation,
            SemanticMessage::ContinueOutsideLoop,
        ),
        st.loop_depth != 0 ==> check_stmt_spec(st, StmtV::Continue) == st,
{
}

/// The range of integer type `t` holds `x`.
pub open spec fn in_range_of(t: Type, x: int) -> bool {
    match type_bounds(t) {
        Some((lo, hi)) => lo <= x <= hi,
        None => false,
    }
}

/// A signed literal has the first of `i8`, `i16`, `i32` and `i64` whose
/// range holds it, an unsigned one the first of `u8`, `u16`, `u32` and
/// `u64`; checking a literal reports nothing.
pub proof fn law_literal_types(st: AState, v: i64, w: u64)
    ensures
        check_expr_spec(st, ExprV::IntLiteral(v)) == (int_literal_type(v), st),
        check_expr_spec(st, ExprV::UIntLiteral(w)) == (uint_literal_type(w), st),
        int_literal_type(v) == Type::I8 || int_literal_type(v) == Type::I16 || int_literal_type(v) == Type::I32
            || int_literal_type(v) == Type::I64,
        in_range_of(int_literal_type(v), v as int),
        int_literal_type(v) != Type::I8 ==> !in_range_of(Type::I8, v as int),
        (int_literal_type(v) == Type::I32 || int_literal_type(v) == Type::I64) ==> !in_range_of(Type::I16, v as int),
        int_literal_type(v) == Type::I64 ==> !in_range_of(Type::I32, v as int),
        uint_literal_type(w) == Type::U8 || uint_literal_type(w) == Type::U16 || uint_literal_type(w) == Type::U32
            || uint_literal_type(w) == Type::U64,
        in_range_of(uint_literal_type(w), w as int),
        uint_literal_type(w) != Type::U8 ==> !in_range_of(Type::U8, w as int),
        (uint_literal_type(w) == Type::U32 || uint_literal_type(w) == Type::U64) ==> !in_range_of(Type::U16, w as int),
        uint_literal_type(w) == Type::U64 ==> !in_range_of(Type::U32, w as int),
{
}

proof fn lemma_lookup_innermost(scopes: Seq<Seq<(String, SymbolInfo)>>, name: Seq<char>, k: int, m: int)
    requires
        0 <= m < k <= scopes.len(),
        find_symbol(scopes[m], name, 0) is Some,
        forall|j: int| m < j < k ==> #[trigger] find_symbol(scopes[j], name, 0) is None,
    ensures
        lookup_below(scopes, name, k) == find_symbol(scopes[m], name, 0),
    decreases k,
{
    if m < k - 1 {
        assert(find_symbol(scopes[k - 1], name, 0) is None);
        lemma_lookup_innermost(scopes, name, k - 1, m);
    }
}

proof fn lemma_lookup_absent(scopes: Seq<Seq<(String, SymbolInfo)>>, name: Seq<char>, k: int)
    requires
        0 <= k <= scopes.len(),
        forall|j: int| 0 <= j < k ==> #[trigger] find_symbol(scopes[j], name, 0) is None,
    ensures
        lookup_below(scopes, name, k) is None,
    decreases k,
{
    if k > 0 {
        assert(find_symbol(scopes[k - 1], name, 0) is None);
        lemma_lookup_absent(scopes, name, k - 1);
    }
}

/// A variable has the type it was declared with in the innermost open
/// scope that declares it, and naming it reports nothing; a name that no
/// open scope declares has type `void` and gets exactly one
/// `UndeclaredVariable` error.
pub proof fn law_variable_lookup(st: AState, name: String)
    ensures
        forall|k: int|
            0 <= k < st.scopes.len() && #[trigger] find_symbol(st.scopes[k], name@, 0) is Some && (forall|j: int|
                k < j < st.scopes.len() ==> find_symbol(st.scopes[j], name@, 0) is None) ==> check_expr_spec(
                st,
                ExprV::Ident(name),
            ) == (find_symbol(st.scopes[k], name@, 0)->0.ty, st),
        (forall|j: int| 0 <= j < st.scopes.len() ==> find_symbol(st.scopes[j], name@, 0) is None) ==> check_expr_spec(
            st,
            ExprV::Ident(name),
        ) == (
            Type::Void,
            push_err(st, SemanticErrorKind::UndeclaredVariable, SemanticMessage::UndeclaredVariable(name)),
        ),
{
    assert forall|k: int|
        0 <= k < st.scopes.len() && #[trigger] find_symbol(st.scopes[k], name@, 0) is Some && (forall|j: int|
            k < j < st.scopes.len() ==> find_symbol(st.scopes[j], name@, 0) is None) implies check_expr_spec(
        st,
        ExprV::Ident(name),
    ) == (find_symbol(st.scopes[k], name@, 0)->0.ty, st) by {
        lemma_lookup_innermost(st.scopes, name@, st.scopes.len() as int, k);
    }
    if forall|j: int| 0 <= j < st.scopes.len() ==> find_symbol(st.scopes[j], name@, 0) is None {
        lemma_lookup_absent(st.scopes, name@, st.scopes.len() as int);
    }
}

/// In an arithmetic operation or a comparison of two integer operands, an
/// operand whose type accepts the other's (as `int` accepts an `i8`
/// literal) gives the operation its type: the result is that type for
/// arithmetic and `bool` for a comparison, and nothing is reported beyond
/// what the operands report.
pub proof fn law_operands_widen(st: AState, left: ExprV, op: BinOp, right: ExprV)
    requires
        is_arith_op(op) || is_comparison_op(op),
    ensures
        ({
            let (lt, st1) = check_expr_spec(st, left);
            let (rt, st2) = check_expr_spec(st1, right);
            let wide = if compatible_spec(lt, rt) { lt } else { rt };
            (is_integer_spec(lt) && is_integer_spec(rt) && (compatible_spec(lt, rt) || compatible_spec(rt, lt)))
                ==> check_expr_spec(st, ExprV::BinaryOp { left: Box::new(left), op, right: Box::new(right) }) == (
                if is_arith_op(op) { wide } else { Type::Bool },
                st2,
            )
        }),
{
}

/// The errors of `a` are those `b` starts with: only errors after them are
/// new.
pub open spec fn errors_kept(a: AState, b: AState) -> bool {
    &&& a.errors.len() <= b.errors.len()
    &&& forall|i: int| 0 <= i < a.errors.len() ==> #[trigger] b.errors[i] == a.errors[i]
}

proof fn lemma_kept_trans(a: AState, b: AState, c: AState)
    requires
        errors_kept(a, b),
        errors_kept(b, c),
    ensures
        errors_kept(a, c),
{
    assert forall|i: int| 0 <= i < a.errors.len() implies #[trigger] c.errors[i] == a.errors[i] by {
        assert(c.errors[i] == b.errors[i]);
    }
}

proof fn lemma_kept_expr(st: AState, e: ExprV)
    ensures
        errors_kept(st, check_expr_spec(st, e).1),
{
    law_check_expr_only_adds_errors(st, e);
    let b = check_expr_spec(st, e).1;
    assert forall|i: int| 0 <= i < st.errors.len() implies #[trigger] b.errors[i] == st.errors[i] by {
        assert(b.errors.subrange(0, st.errors.len() as int)[i] == b.errors[i]);
    }
}

proof fn lemma_kept_exprs(st: AState, es: Seq<ExprV>, i: int)
    ensures
        errors_kept(st, check_exprs_spec(st, es, i)),
    decreases es.len() - i,
{
    if 0 <= i < es.len() {
        lemma_kept_expr(st, es[i]);
        let st1 = check_expr_spec(st, es[i]).1;
        lemma_kept_exprs(st1, es, i + 1);
        lemma_kept_trans(st, st1, check_exprs_spec(st1, es, i + 1));
    }
}

proof fn lemma_kept_declare_params(st: AState, params: Seq<(Type, String)>, i: int)
    ensures
        errors_kept(st, declare_params_spec(st, params, i)),
    decreases params.len() - i,
{
    if 0 <= i < params.len() {
        let st1 = declare_spec(st, params[i].1, params[i].0, Mutability::Mutable);
        lemma_kept_declare_params(st1, params, i + 1);
        lemma_kept_trans(st, st1, declare_params_spec(st1, params, i + 1));
    }
}

proof fn lemma_kept_register_all(st: AState, ss: Seq<StmtV>, i: int)
    ensures
        errors_kept(st, register_all_spec(st, ss, i)),
    decreases ss.len() - i,
{
    if 0 <= i < ss.len() {
        let st1 = match ss[i] {
            StmtV::FuncDecl { name, params, return_type, .. } => register_spec(st, name, params, return_type),
            _ => st,
        };
        lemma_kept_register_all(st1, ss, i + 1);
        lemma_kept_trans(st, st1, register_all_spec(st1, ss, i + 1));
    }
}

proof fn lemma_kept_simple(st: AState, s: StmtV)
    requires
        s is VarDecl || s is Assignment || s is CompoundAssign || s is Return || s is Print || s is Break
            || s is Continue || s is WhenStatement,
    ensures
        errors_kept(st, check_stmt_spec(st, s)),
{
    match s {
        StmtV::VarDecl { name, ty, value, mutability } => {
            lemma_kept_expr(st, value);
            let (t, st1) = check_expr_spec(st, value);
            let st2 = if !compatible_spec(ty, t) {
                push_err(
                    st1,
                    SemanticErrorKind::TypeMismatch,
                    SemanticMessage::VariableTypeMismatch { name, expected: ty, found: t },
                )
            } else {
                st1
            };
            lemma_kept_trans(st, st1, st2);
            lemma_kept_trans(st, st2, declare_spec(st2, name, ty, mutability));
        },
        StmtV::Assignment { target, value } => {
            match lookup_spec(st.scopes, target@) {
                None => {},
                Some(info) => {
                    let st1 = if info.mutability == Mutability::Const {
                        push_err(st, SemanticErrorKind::ImmutableAssignment, SemanticMessage::ConstAssignment(target))
                    } else {
                        st
                    };
                    lemma_kept_expr(st1, value);
                    lemma_kept_trans(st, st1, check_expr_spec(st1, value).1);
                },
            }
        },
        StmtV::CompoundAssign { target, op, value } => {
            match lookup_spec(st.scopes, target@) {
                None => {},
                Some(info) => {
                    let st1 = if info.mutability == Mutability::Const {
                        push_err(st, SemanticErrorKind::ImmutableAssignment, SemanticMessage::ConstAssignment(target))
                    } else {
                        st
                    };
                    lemma_kept_expr(st1, value);
                    lemma_kept_trans(st, st1, check_expr_spec(st1, value).1);
                },
            }
        },
        StmtV::Return(e) => {
            lemma_kept_expr(st, e);
        },
        StmtV::Print(es) => {
            lemma_kept_exprs(st, es, 0);
        },
        _ => {},
    }
}

proof fn lemma_kept_stmt(st: AState, s: StmtV)
    ensures
        errors_kept(st, check_stmt_spec(st, s)),
    decreases s, 2nat,
{
    match s {
        StmtV::FuncDecl { name, params, return_type, body } => {
            let st0 = enter_spec(AState { current_function: Some(name), ..st });
            lemma_kept_declare_params(st0, params, 0);
            let st1 = declare_params_spec(st0, params, 0);
            lemma_kept_stmts(st1, body, 0);
            lemma_kept_trans(st, st1, check_stmts_spec(st1, body, 0));
        },
        StmtV::IfStatement { condition, then_branch, else_branch } => {
            lemma_kept_expr(st, condition);
            let st1 = bool_condition_spec(st, condition, false);
            lemma_kept_trans(st, check_expr_spec(st, condition).1, st1);
            lemma_kept_stmts(enter_spec(st1), then_branch, 0);
            let st2 = exit_spec(check_stmts_spec(enter_spec(st1), then_branch, 0));
            lemma_kept_trans(st, st1, st2);
            match else_branch {
                Some(b) => {
                    lemma_kept_stmts(enter_spec(st2), b, 0);
                    lemma_kept_trans(st, st2, exit_spec(check_stmts_spec(enter_spec(st2), b, 0)));
                },
                None => {},
            }
        },
        StmtV::ForLoop { var, start, step, end, body } => {
            lemma_kept_expr(st, start);
            let st1 = check_expr_spec(st, start).1;
            let st2 = match step {
                Some(e) => {
                    lemma_kept_expr(st1, e);
                    check_expr_spec(st1, e).1
                },
                None => st1,
            };
            lemma_kept_trans(st, st1, st2);
            lemma_kept_expr(st2, end);
            lemma_kept_trans(st, st2, check_expr_spec(st2, end).1);
            let h = for_head_spec(st, start, step, end);
            let st3 = declare_spec(
                AState { loop_depth: h.loop_depth + 1, ..enter_spec(h) },
                var,
                Type::Int,
                Mutability::Const,
            );
            lemma_kept_stmts(st3, body, 0);
            lemma_kept_trans(st, st3, check_stmts_spec(st3, body, 0));
        },
        StmtV::Loop { body } => {
            let st1 = AState { loop_depth: st.loop_depth + 1, ..enter_spec(st) };
            lemma_kept_stmts(st1, body, 0);
        },
        StmtV::WhileLoop { cond, body } => {
            lemma_kept_expr(st, cond);
            let st1 = bool_condition_spec(st, cond, true);
            lemma_kept_trans(st, check_expr_spec(st, cond).1, st1);
            let st2 = AState { loop_depth: st1.loop_depth + 1, ..enter_spec(st1) };
            lemma_kept_stmts(st2, body, 0);
            lemma_kept_trans(st, st2, check_stmts_spec(st2, body, 0));
        },
        _ => {
            lemma_kept_simple(st, s);
        },
    }
}

proof fn lemma_kept_stmts(st: AState, ss: Seq<StmtV>, i: int)
    ensures
        errors_kept(st, check_stmts_spec(st, ss, i)),
    decreases ss, ss.len() - i,
{
    if 0 <= i < ss.len() {
        lemma_kept_stmt(st, ss[i]);
        let st1 = check_stmt_spec(st, ss[i]);
        lemma_kept_stmts(st1, ss, i + 1);
        lemma_kept_trans(st, st1, check_stmts_spec(st1, ss, i + 1));
    }
}

/// Analysing a program keeps the errors already recorded (by an earlier
/// analysis with the same analyzer), first and unchanged: the new ones
/// come after them.
pub proof fn law_analysis_keeps_earlier_errors(st: AState, ss: Seq<StmtV>)
    ensures
        st.errors.len() <= analyze_spec(st, ss).errors.len(),
        analyze_spec(st, ss).errors.subrange(0, st.errors.len() as int) == st.errors,
{
    lemma_kept_register_all(st, ss, 0);
    let st1 = register_all_spec(st, ss, 0);
    lemma_kept_stmts(st1, ss, 0);
    lemma_kept_trans(st, st1, analyze_spec(st, ss));
    assert(analyze_spec(st, ss).errors.subrange(0, st.errors.len() as int) =~= st.errors);
}

// ---------------------------------------------------------------------
// The loop counter's limit
// ---------------------------------------------------------------------

/// How far checking `stmt` can raise the loop counter (`None` beyond
/// `usize::MAX`).
fn stmt_loops(stmt: &Stmt) -> (r: Option<usize>)
    ensures
        match r {
            Some(n) => n == loops_in(stmt.view()),
            None => loops_in(stmt.view()) > usize::MAX,
        },
    decreases stmt, 1nat,
{
    match stmt {
        Stmt::FuncDecl(f) => {
            proof {
                lemma_func_view(*f);
            }
            body_loops(&f.body)
        },
        Stmt::IfStatement(i) => {
            proof {
                lemma_if_view(*i);
            }
            let a = body_loops(&i.then_branch)?;
            match &i.else_branch {
                Some(b) => {
                    let c = body_loops(b)?;
                    a.checked_add(c)
                },
                None => Some(a),
            }
        },
        Stmt::ForLoop(f) => {
            proof {
                lemma_for_view(*f);
            }
            let a = body_loops(&f.body)?;
            a.checked_add(1)
        },
        Stmt::Loop(l) => {
            proof {
                lemma_loop_view(*l);
            }
            let a = body_loops(&l.body)?;
            a.checked_add(1)
        },
        Stmt::WhileLoop(w) => {
            proof {
                lemma_while_view(*w);
            }
            let a = body_loops(&w.body)?;
            a.checked_add(1)
        },
        _ => {
            proof {
                reveal(Stmt::view);
            }
            Some(0)
        },
    }
}

fn body_loops(body: &Vec<Stmt>) -> (r: Option<usize>)
    ensures
        match r {
            Some(n) => n == block_loops(stmts_view(body@), 0),
            None => block_loops(stmts_view(body@), 0) > usize::MAX,
        },
    decreases body, 0nat,
{
    let ghost sv = stmts_view(body@);
    let mut acc: usize = 0;
    let mut i: usize = 0;
    while i < body.len()
        invariant
            i <= body@.len(),
            sv == stmts_view(body@),
            block_loops(sv, 0) == acc + block_loops(sv, i as int),
        decreases body.len() - i,
    {
        let n = stmt_loops(&body[i])?;
        acc = acc.checked_add(n)?;
        i += 1;
    }
    Some(acc)
}

/// Checking `stmts` from a loop counter of `depth` keeps the counter
/// within `usize`: the condition `analyze` needs.
pub fn loops_within(stmts: &[Stmt], depth: usize) -> (r: bool)
    ensures
        r == (depth + block_loops(stmts_view(stmts@), 0) <= usize::MAX),
{
    let ghost sv = stmts_view(stmts@);
    let mut acc: usize = depth;
    let mut i: usize = 0;
    while i < stmts.len()
        invariant
            i <= stmts@.len(),
            sv == stmts_view(stmts@),
            depth + block_loops(sv, 0) == acc + block_loops(sv, i as int),
        decreases stmts.len() - i,
    {
        match stmt_loops(&stmts[i]) {
            Some(n) => match acc.checked_add(n) {
                Some(a) => {
                    acc = a;
                },
                None => {
                    return false;
                },
            },
            None => {
                return false;
            },
        }
        i += 1;
    }
    true
}

/// An assignment to a declared variable is checked against the variable's
/// type: after the errors of checking the value (and, for a constant, the
/// error for assigning it), a value of a type the variable does not accept
/// gets exactly one `TypeMismatch` error naming the variable and both
/// types, and a value it accepts gets none. Nothing but errors changes.
pub proof fn law_assignment_type_checked(st: AState, target: String, value: ExprV, info: SymbolInfo)
    requires
        lookup_spec(st.scopes, target@) == Some(info),
    ensures
        ({
            let st1 = if info.mutability == Mutability::Const {
                push_err(st, SemanticErrorKind::ImmutableAssignment, SemanticMessage::ConstAssignment(target))
            } else {
                st
            };
            let (t, st2) = check_expr_spec(st1, value);
            let after = assignment_spec(st, target, value);
            &&& only_errors_added(st, after)
            &&& !compatible_spec(info.ty, t) ==> after.errors == st2.errors.push(
                SemanticError::of(
                    SemanticErrorKind::TypeMismatch,
                    SemanticMessage::AssignmentTypeMismatch { name: target, expected: info.ty, found: t },
                ),
            )
            &&& compatible_spec(info.ty, t) ==> after.errors == st2.errors
            &&& info.mutability != Mutability::Const ==> st1 == st
        }),
{
    let st1 = if info.mutability == Mutability::Const {
        push_err(st, SemanticErrorKind::ImmutableAssignment, SemanticMessage::ConstAssignment(target))
    } else {
        st
    };
    law_check_expr_only_adds_errors(st1, value);
}

/// A compound assignment to a declared variable is checked like an
/// assignment, against what its operator accepts: after the errors of
/// checking the value (and, for a constant, the error for assigning it), an
/// operator that does not apply to the variable's type and the value's
/// gets exactly one `InvalidOperation` error, and one that applies gets
/// none. Nothing but errors changes.
pub proof fn law_compound_assignment_checked(st: AState, target: String, op: BinOp, value: ExprV, info: SymbolInfo)
    requires
        lookup_spec(st.scopes, target@) == Some(info),
    ensures
        ({
            let st1 = if info.mutability == Mutability::Const {
                push_err(st, SemanticErrorKind::ImmutableAssignment, SemanticMessage::ConstAssignment(target))
            } else {
                st
            };
            let (t, st2) = check_expr_spec(st1, value);
            let after = compound_spec(st, target, op, value);
            &&& only_errors_added(st, after)
            &&& !valid_binop_spec(info.ty, op, t) ==> after.errors == st2.errors.push(
                SemanticError::of(
                    SemanticErrorKind::InvalidOperation,
                    SemanticMessage::InvalidCompound { op, left: info.ty, right: t },
                ),
            )
            &&& valid_binop_spec(info.ty, op, t) ==> after.errors == st2.errors
        }),
{
    let st1 = if info.mutability == Mutability::Const {
        push_err(st, SemanticErrorKind::ImmutableAssignment, SemanticMessage::ConstAssignment(target))
    } else {
        st
    };
    law_check_expr_only_adds_errors(st1, value);
}

/// A `return` inside a function with a return type is checked against it:
/// after the errors of checking the value, a value of a type the return
/// type does not accept gets exactly one `WrongReturnType` error, and one
/// it accepts gets none.
pub proof fn law_return_type_checked(st: AState, e: ExprV, fname: String, f: FunV, expected: Type)
    requires
        st.current_function == Some(fname),
        find_function(st.functions, fname@, 0) == Some(f),
        f.return_type == Some(expected),
    ensures
        ({
            let (t, st1) = check_expr_spec(st, e);
            &&& !compatible_spec(expected, t) ==> return_spec(st, e) == push_err(
                st1,
                SemanticErrorKind::WrongReturnType,
                SemanticMessage::WrongReturnType { name: fname, expected, found: t },
            )
            &&& compatible_spec(expected, t) ==> return_spec(st, e) == st1
        }),
{
    law_check_expr_only_adds_errors(st, e);
}

} // verus!
