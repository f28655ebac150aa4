//! Recursive-descent parser from tokens to statements.
use vstd::prelude::*;
use crate::compiler::lexer::{
    is_plain, kind_view, lemma_tag_plain, KindView, Token, TokenKind,
};

verus! {

broadcast use vstd::string::group_string_axioms;

pub struct Parser {
    tokens: Vec<Token>,
    pos: usize,
    variables: Vec<String>,
}

#[derive(Debug)]
pub enum Stmt {
    VarDecl(VarDecl),
    FuncDecl(FuncDecl),
    IfStatement(IfStatement),
    WhenStatement(WhenStatement),
    ForLoop(ForLoop),
    Loop(Loop),
    WhileLoop(WhileLoop),
    Return(Expr),
    Print(Vec<Expr>),
    CompoundAssign { target: String, op: BinOp, value: Expr },
    Assignment(Assignment),
    Break,
    Continue,
}

#[derive(Debug)]
pub struct WhileLoop {
    pub cond: Expr,
    pub body: Vec<Stmt>,
}

#[derive(Debug)]
pub struct Assignment {
    pub target: String,
    pub value: Expr,
}

#[derive(Debug, Clone, Copy, PartialEq, Eq, Structural)]
pub enum ParserErrorKind {
    ExpectedSemiColonKind,
    ExpectedTokenNotFound,
    DuplicateElseStatement,
    ExpectedIdentifierNotFound,
    InvalidExpression,
    InvalidVariableDecl,
    DuplicateVariableError,
    UndefinedVariable,
}

#[derive(Debug)]
pub struct ParseResult {
    pub stmts: Vec<Stmt>,
    pub errors: Vec<ParserError>,
    pub success: bool,
}

/// What a parser error reports, beyond its kind and place.
#[derive(Debug, Clone)]
pub enum ParserMessage {
    /// An identifier starting a statement is followed by neither `=` nor a
    /// compound assignment.
    UnexpectedAfterIdent,
    /// The token found cannot start an expression.
    InvalidExpression(TokenKind),
    /// An identifier was expected; the token found.
    ExpectedIdentifier(TokenKind),
    /// The token expected and the token found.
    Expected(TokenKind, TokenKind),
    /// A `when` with two `else` arms.
    MultipleElse,
    /// A variable declared a second time.
    AlreadyDeclared(String),
    /// A declaration without a type whose value is not a literal from which
    /// the type can be read; the variable's name.
    CannotInferType(String),
}

#[derive(Debug, Clone)]
pub struct ParserError {
    kind: ParserErrorKind,
    column: usize,
    line: usize,
    error: ParserMessage,
}

#[derive(Debug)]
pub struct WhenStatement {
    pub condition: Expr,
    pub arms: Vec<(Expr, Vec<Stmt>)>,
    pub else_arm: Option<Vec<Stmt>>,
}

#[derive(Debug)]
pub struct IfStatement {
    pub condition: Expr,
    pub then_branch: Vec<Stmt>,
    pub else_branch: Option<Vec<Stmt>>,
}

#[derive(Debug)]
pub struct VarDecl {
    pub name: String,
    pub ty: Type,
    pub value: Expr,
    pub mutability: Mutability,
}

#[derive(Debug, Clone, Copy, PartialEq, Eq, Structural)]
pub enum Mutability {
    Const,
    Mutable,
}

#[derive(Debug)]
pub struct FuncDecl {
    pub name: String,
    pub params: Vec<(Type, String)>,
    pub return_type: Option<Type>,
    pub body: Vec<Stmt>,
}

#[derive(Debug)]
pub struct Loop {
    pub body: Vec<Stmt>,
}

#[derive(Debug)]
pub struct ForLoop {
    pub var: String,
    pub start: Expr,
    pub step: Option<Expr>,
    pub end: Expr,
    pub body: Vec<Stmt>,
}

#[derive(Debug)]
pub enum Type {
    U8,
    U16,
    U32,
    U64,
    U128,
    I8,
    I16,
    I32,
    I64,
    I128,
    Int,
    UInt,
    Bool,
    Str,
    Void,
    Vec { inner: Box<Type>, size: usize },
    Unknown,
}

#[derive(Debug, Clone, Copy, PartialEq, Eq, Structural)]
pub enum BinOp {
    Add,
    Sub,
    Mul,
    Div,
    Percent,
    DoubleEqual,
    IndentityOp,
    NotEqual,
    LessEqual,
    Less,
    Greater,
    GreaterEqual,
    CompoundAdd,
    CompoundSub,
    CompoundMul,
    CompoundDiv,
}

#[derive(Debug)]
pub enum Expr {
    UIntLiteral(u64),
    IntLiteral(i64),
    U128Literal(u128),
    I128Literal(i128),
    BoolLiteral(bool),
    StringLiteral(String),
    UInt8(u8),
    UInt16(u16),
    UInt32(u32),
    UInt64(u64),
    UInt128(u128),
    Int8(i8),
    Int16(i16),
    Int32(i32),
    Int64(i64),
    Int128(i128),
    Int(i64),
    UInt(u64),
    Vec { values: Vec<Expr>, size: usize },
    Ident(String),
    Identity { expr: Box<Expr>, negated: bool },
    Call { name: String, args: Vec<Expr> },
    BinaryOp { left: Box<Expr>, op: BinOp, right: Box<Expr> },
    Unknown,
}

impl Clone for Type {
    fn clone(&self) -> (r: Self)
        ensures
            r == *self,
        decreases self,
    {
        match self {
            Type::U8 => Type::U8,
            Type::U16 => Type::U16,
            Type::U32 => Type::U32,
            Type::U64 => Type::U64,
            Type::U128 => Type::U128,
            Type::I8 => Type::I8,
            Type::I16 => Type::I16,
            Type::I32 => Type::I32,
            Type::I64 => Type::I64,
            Type::I128 => Type::I128,
            Type::Int => Type::Int,
            Type::UInt => Type::UInt,
            Type::Bool => Type::Bool,
            Type::Str => Type::Str,
            Type::Void => Type::Void,
            Type::Vec { inner, size } => Type::Vec { inner: Box::new((**inner).clone()), size: *size },
            Type::Unknown => Type::Unknown,
        }
    }
}

impl Type {
    /// Structural equality of types.
    pub fn same(&self, other: &Type) -> (r: bool)
        ensures
            r == (*self == *other),
        decreases self,
    {
        match (self, other) {
            (Type::U8, Type::U8) => true,
            (Type::U16, Type::U16) => true,
            (Type::U32, Type::U32) => true,
            (Type::U64, Type::U64) => true,
            (Type::U128, Type::U128) => true,
            (Type::I8, Type::I8) => true,
            (Type::I16, Type::I16) => true,
            (Type::I32, Type::I32) => true,
            (Type::I64, Type::I64) => true,
            (Type::I128, Type::I128) => true,
            (Type::Int, Type::Int) => true,
            (Type::UInt, Type::UInt) => true,
            (Type::Bool, Type::Bool) => true,
            (Type::Str, Type::Str) => true,
            (Type::Void, Type::Void) => true,
            (Type::Vec { inner: a, size: n }, Type::Vec { inner: b, size: m }) => *n == *m && (**a).same(&**b),
            (Type::Unknown, Type::Unknown) => true,
            _ => false,
        }
    }
}

// ---------------------------------------------------------------------
// Views: the same trees with sequences in place of vectors
// ---------------------------------------------------------------------

pub enum ExprV {
    UIntLiteral(u64),
    IntLiteral(i64),
    U128Literal(u128),
    I128Literal(i128),
    BoolLiteral(bool),
    StringLiteral(String),
    UInt8(u8),
    UInt16(u16),
    UInt32(u32),
    UInt64(u64),
    UInt128(u128),
    Int8(i8),
    Int16(i16),
    Int32(i32),
    Int64(i64),
    Int128(i128),
    Int(i64),
    UInt(u64),
    Vec { values: Seq<ExprV>, size: usize },
    Ident(String),
    Identity { expr: Box<ExprV>, negated: bool },
    Call { name: String, args: Seq<ExprV> },
    BinaryOp { left: Box<ExprV>, op: BinOp, right: Box<ExprV> },
    Unknown,
}

pub enum StmtV {
    VarDecl { name: String, ty: Type, value: ExprV, mutability: Mutability },
    FuncDecl {
        name: String,
        params: Seq<(Type, String)>,
        return_type: Option<Type>,
        body: Seq<StmtV>,
    },
    IfStatement { condition: ExprV, then_branch: Seq<StmtV>, else_branch: Option<Seq<StmtV>> },
    WhenStatement {
        condition: ExprV,
        arms: Seq<(ExprV, Seq<StmtV>)>,
        else_arm: Option<Seq<StmtV>>,
    },
    ForLoop { var: String, start: ExprV, step: Option<ExprV>, end: ExprV, body: Seq<StmtV> },
    Loop { body: Seq<StmtV> },
    WhileLoop { cond: ExprV, body: Seq<StmtV> },
    Return(ExprV),
    Print(Seq<ExprV>),
    CompoundAssign { target: String, op: BinOp, value: ExprV },
    Assignment { target: String, value: ExprV },
    Break,
    Continue,
}

impl Expr {
    #[verifier::opaque]
    pub open spec fn view(&self) -> ExprV
        decreases self,
    {
        match self {
            Expr::UIntLiteral(v) => ExprV::UIntLiteral(*v),
            Expr::IntLiteral(v) => ExprV::IntLiteral(*v),
            Expr::U128Literal(v) => ExprV::U128Literal(*v),
            Expr::I128Literal(v) => ExprV::I128Literal(*v),
            Expr::BoolLiteral(v) => ExprV::BoolLiteral(*v),
            Expr::StringLiteral(v) => ExprV::StringLiteral(*v),
            Expr::UInt8(v) => ExprV::UInt8(*v),
            Expr::UInt16(v) => ExprV::UInt16(*v),
            Expr::UInt32(v) => ExprV::UInt32(*v),
            Expr::UInt64(v) => ExprV::UInt64(*v),
            Expr::UInt128(v) => ExprV::UInt128(*v),
            Expr::Int8(v) => ExprV::Int8(*v),
            Expr::Int16(v) => ExprV::Int16(*v),
            Expr::Int32(v) => ExprV::Int32(*v),
            Expr::Int64(v) => ExprV::Int64(*v),
            Expr::Int128(v) => ExprV::Int128(*v),
            Expr::Int(v) => ExprV::Int(*v),
            Expr::UInt(v) => ExprV::UInt(*v),
            Expr::Vec { values, size } => ExprV::Vec {
                values: Seq::new(
                    values@.len(),
                    |i: int| if 0 <= i < values@.len() { values@[i].view() } else { ExprV::Unknown },
                ),
                size: *size,
            },
            Expr::Ident(s) => ExprV::Ident(*s),
            Expr::Identity { expr, negated } => ExprV::Identity {
                expr: Box::new(expr.view()),
                negated: *negated,
            },
            Expr::Call { name, args } => ExprV::Call {
                name: *name,
                args: Seq::new(
                    args@.len(),
                    |i: int| if 0 <= i < args@.len() { args@[i].view() } else { ExprV::Unknown },
                ),
            },
            Expr::BinaryOp { left, op, right } => ExprV::BinaryOp {
                left: Box::new(left.view()),
                op: *op,
                right: Box::new(right.view()),
            },
            Expr::Unknown => ExprV::Unknown,
        }
    }
}

pub open spec fn exprs_view(s: Seq<Expr>) -> Seq<ExprV> {
    Seq::new(s.len(), |i: int| s[i].view())
}

pub open spec fn opt_expr_view(e: Option<Expr>) -> Option<ExprV> {
    match e {
        Some(e) => Some(e.view()),
        None => None,
    }
}

impl Stmt {
    #[verifier::opaque]
    pub open spec fn view(&self) -> StmtV
        decreases self,
    {
        match self {
            Stmt::VarDecl(v) => StmtV::VarDecl {
                name: v.name,
                ty: v.ty,
                value: v.value.view(),
                mutability: v.mutability,
            },
            Stmt::FuncDecl(f) => StmtV::FuncDecl {
                name: f.name,
                params: f.params@,
                return_type: f.return_type,
                body: Seq::new(
                    f.body@.len(),
                    |i: int| if 0 <= i < f.body@.len() { f.body@[i].view() } else { StmtV::Break },
                ),
            },
            Stmt::IfStatement(s) => StmtV::IfStatement {
                condition: s.condition.view(),
                then_branch: Seq::new(
                    s.then_branch@.len(),
                    |i: int|
                        if 0 <= i < s.then_branch@.len() {
                            s.then_branch@[i].view()
                        } else {
                            StmtV::Break
                        },
                ),
                else_branch: match &s.else_branch {
                    Some(b) => Some(
                        Seq::new(
                            b@.len(),
                            |i: int| if 0 <= i < b@.len() { b@[i].view() } else { StmtV::Break },
                        ),
                    ),
                    None => None,
                },
            },
            Stmt::WhenStatement(w) => StmtV::WhenStatement {
                condition: w.condition.view(),
                arms: Seq::new(
                    w.arms@.len(),
                    |i: int|
                        if 0 <= i < w.arms@.len() {
                            (
                                w.arms@[i].0.view(),
                                Seq::new(
                                    w.arms@[i].1@.len(),
                                    |j: int|
                                        if 0 <= j < w.arms@[i].1@.len() {
                                            w.arms@[i].1@[j].view()
                                        } else {
                                            StmtV::Break
                                        },
                                ),
                            )
                        } else {
                            (ExprV::Unknown, Seq::empty())
                        },
                ),
                else_arm: match &w.else_arm {
                    Some(b) => Some(
                        Seq::new(
                            b@.len(),
                            |i: int| if 0 <= i < b@.len() { b@[i].view() } else { StmtV::Break },
                        ),
                    ),
                    None => None,
                },
            },
            Stmt::ForLoop(f) => StmtV::ForLoop {
                var: f.var,
                start: f.start.view(),
                step: match &f.step {
                    Some(e) => Some(e.view()),
                    None => None,
                },
                end: f.end.view(),
                body: Seq::new(
                    f.body@.len(),
                    |i: int| if 0 <= i < f.body@.len() { f.body@[i].view() } else { StmtV::Break },
                ),
            },
            Stmt::Loop(l) => StmtV::Loop {
                body: Seq::new(
                    l.body@.len(),
                    |i: int| if 0 <= i < l.body@.len() { l.body@[i].view() } else { StmtV::Break },
                ),
            },
            Stmt::WhileLoop(w) => StmtV::WhileLoop {
                cond: w.cond.view(),
                body: Seq::new(
                    w.body@.len(),
                    |i: int| if 0 <= i < w.body@.len() { w.body@[i].view() } else { StmtV::Break },
                ),
            },
            Stmt::Return(e) => StmtV::Return(e.view()),
            Stmt::Print(es) => StmtV::Print(
                Seq::new(
                    es@.len(),
                    |i: int| if 0 <= i < es@.len() { es@[i].view() } else { ExprV::Unknown },
                ),
            ),
            Stmt::CompoundAssign { target, op, value } => StmtV::CompoundAssign {
                target: *target,
                op: *op,
                value: value.view(),
            },
            Stmt::Assignment(a) => StmtV::Assignment { target: a.target, value: a.value.view() },
            Stmt::Break => StmtV::Break,
            Stmt::Continue => StmtV::Continue,
        }
    }
}

pub open spec fn stmts_view(s: Seq<Stmt>) -> Seq<StmtV> {
    Seq::new(s.len(), |i: int| s[i].view())
}

pub open spec fn arms_view(s: Seq<(Expr, Vec<Stmt>)>) -> Seq<(ExprV, Seq<StmtV>)> {
    Seq::new(s.len(), |i: int| (s[i].0.view(), stmts_view(s[i].1@)))
}

pub open spec fn opt_block_view(b: Option<Vec<Stmt>>) -> Option<Seq<StmtV>> {
    match b {
        Some(b) => Some(stmts_view(b@)),
        None => None,
    }
}


// ---------------------------------------------------------------------
// Specification of the parser
// ---------------------------------------------------------------------

pub enum MessageV {
    UnexpectedAfterIdent,
    InvalidExpression(KindView),
    ExpectedIdentifier(KindView),
    Expected(KindView, KindView),
    MultipleElse,
    AlreadyDeclared(Seq<char>),
    CannotInferType(Seq<char>),
}

pub struct PErr {
    pub kind: ParserErrorKind,
    pub line: usize,
    pub column: usize,
    pub message: MessageV,
}

pub open spec fn message_view(m: ParserMessage) -> MessageV {
    match m {
        ParserMessage::UnexpectedAfterIdent => MessageV::UnexpectedAfterIdent,
        ParserMessage::InvalidExpression(k) => MessageV::InvalidExpression(kind_view(k)),
        ParserMessage::ExpectedIdentifier(k) => MessageV::ExpectedIdentifier(kind_view(k)),
        ParserMessage::Expected(a, b) => MessageV::Expected(kind_view(a), kind_view(b)),
        ParserMessage::MultipleElse => MessageV::MultipleElse,
        ParserMessage::AlreadyDeclared(n) => MessageV::AlreadyDeclared(n@),
        ParserMessage::CannotInferType(n) => MessageV::CannotInferType(n@),
    }
}

impl ParserError {
    pub closed spec fn view(&self) -> PErr {
        PErr {
            kind: self.kind,
            line: self.line,
            column: self.column,
            message: message_view(self.error),
        }
    }
}

/// Outcome of parsing from a position: the value, the number of tokens
/// consumed and the names declared so far; or an error with the same
/// bookkeeping; or `Stuck`, where the parser gives up altogether (the
/// token sequence has no form the parser can continue from).
pub enum Parsed<T> {
    Done(T, nat, Set<Seq<char>>),
    Failed(PErr, nat, Set<Seq<char>>),
    Stuck,
}

/// `r` after `n` more tokens were consumed before it.
pub open spec fn shift<T>(r: Parsed<T>, n: nat) -> Parsed<T> {
    match r {
        Parsed::Done(v, c, vs) => Parsed::Done(v, c + n, vs),
        Parsed::Failed(e, c, vs) => Parsed::Failed(e, c + n, vs),
        Parsed::Stuck => Parsed::Stuck,
    }
}

/// A failure (or give-up) `r` carried over to another result type, after
/// `n` more tokens.
pub open spec fn fail_after<T, U>(r: Parsed<T>, n: nat) -> Parsed<U> {
    match r {
        Parsed::Failed(e, c, vs) => Parsed::Failed(e, c + n, vs),
        _ => Parsed::Stuck,
    }
}

pub open spec fn kind_at(ts: Seq<Token>, p: int) -> Option<TokenKind> {
    if 0 <= p < ts.len() { Some(ts[p].kind) } else { None }
}

pub open spec fn remaining(ts: Seq<Token>, p: int) -> nat {
    if p < ts.len() { (ts.len() - p) as nat } else { 0 }
}

pub open spec fn err_at(ts: Seq<Token>, p: int, kind: ParserErrorKind, message: MessageV) -> PErr {
    PErr { kind, line: ts[p].span.line, column: ts[p].span.column, message }
}

pub open spec fn expect_spec(ts: Seq<Token>, p: int, vs: Set<Seq<char>>, k: TokenKind) -> Parsed<()> {
    match kind_at(ts, p) {
        None => Parsed::Stuck,
        Some(f) => if f == k {
            Parsed::Done((), 1, vs)
        } else {
            Parsed::Failed(
                err_at(ts, p, ParserErrorKind::ExpectedTokenNotFound, MessageV::Expected(kind_view(k), kind_view(f))),
                0,
                vs,
            )
        },
    }
}

pub open spec fn expect_ident_spec(ts: Seq<Token>, p: int, vs: Set<Seq<char>>) -> Parsed<String> {
    match kind_at(ts, p) {
        None => Parsed::Stuck,
        Some(TokenKind::Ident(name)) => Parsed::Done(name, 1, vs),
        Some(f) => Parsed::Failed(
            err_at(ts, p, ParserErrorKind::ExpectedIdentifierNotFound, MessageV::ExpectedIdentifier(kind_view(f))),
            0,
            vs,
        ),
    }
}

/// Types: the primitive type names, and `Vec < type , size >` where the size
/// is an integer literal (truncated to `usize`). Anything else is not a type,
/// and the parser gives up.
pub open spec fn parse_type_spec(ts: Seq<Token>, p: int, vs: Set<Seq<char>>) -> Parsed<Type>
    decreases remaining(ts, p),
{
    match kind_at(ts, p) {
        None => Parsed::Stuck,
        Some(k) => match k {
            TokenKind::Str => Parsed::Done(Type::Str, 1, vs),
            TokenKind::UInt8 => Parsed::Done(Type::U8, 1, vs),
            TokenKind::UInt16 => Parsed::Done(Type::U16, 1, vs),
            TokenKind::UInt32 => Parsed::Done(Type::U32, 1, vs),
            TokenKind::UInt64 => Parsed::Done(Type::U64, 1, vs),
            TokenKind::UInt128 => Parsed::Done(Type::U128, 1, vs),
            TokenKind::Int8 => Parsed::Done(Type::I8, 1, vs),
            TokenKind::Int16 => Parsed::Done(Type::I16, 1, vs),
            TokenKind::Int32 => Parsed::Done(Type::I32, 1, vs),
            TokenKind::Int64 => Parsed::Done(Type::I64, 1, vs),
            TokenKind::Int128 => Parsed::Done(Type::I128, 1, vs),
            TokenKind::Int => Parsed::Done(Type::Int, 1, vs),
            TokenKind::UInt => Parsed::Done(Type::UInt, 1, vs),
            TokenKind::Bool => Parsed::Done(Type::Bool, 1, vs),
            TokenKind::Void => Parsed::Done(Type::Void, 1, vs),
            TokenKind::Vec => match expect_spec(ts, p + 1, vs, TokenKind::Less) {
                Parsed::Done(_, _, vs1) => match parse_type_spec(ts, p + 2, vs1) {
                    Parsed::Done(inner, c, vs2) => match expect_spec(ts, p + 2 + c, vs2, TokenKind::Comma) {
                        Parsed::Done(_, _, vs3) => match kind_at(ts, p + 3 + c) {
                            Some(TokenKind::IntLiteral(n)) => match expect_spec(ts, p + 4 + c, vs3, TokenKind::Greater) {
                                Parsed::Done(_, _, vs4) => Parsed::Done(
                                    Type::Vec { inner: Box::new(inner), size: n as usize },
                                    c + 5,
                                    vs4,
                                ),
                                r => fail_after(r, c + 4),
                            },
                            _ => Parsed::Stuck,
                        },
                        r => fail_after(r, c + 2),
                    },
                    r => fail_after(r, 2),
                },
                r => fail_after(r, 1),
            },
            _ => Parsed::Stuck,
        },
    }
}

pub open spec fn is_binop_token(k: TokenKind, ops: Seq<(TokenKind, BinOp)>) -> Option<BinOp>
    decreases ops.len(),
{
    if ops.len() == 0 {
        None
    } else if k == ops[0].0 {
        Some(ops[0].1)
    } else {
        is_binop_token(k, ops.drop_first())
    }
}

pub open spec fn mul_ops() -> Seq<(TokenKind, BinOp)> {
    seq![(TokenKind::Star, BinOp::Mul), (TokenKind::Slash, BinOp::Div), (TokenKind::Percent, BinOp::Percent)]
}

pub open spec fn add_ops() -> Seq<(TokenKind, BinOp)> {
    seq![(TokenKind::Plus, BinOp::Add), (TokenKind::Minus, BinOp::Sub)]
}

pub open spec fn cmp_ops() -> Seq<(TokenKind, BinOp)> {
    seq![
        (TokenKind::GreaterEqual, BinOp::GreaterEqual),
        (TokenKind::Greater, BinOp::Greater),
        (TokenKind::LessEqual, BinOp::LessEqual),
        (TokenKind::Less, BinOp::Less),
    ]
}

pub open spec fn eq_ops() -> Seq<(TokenKind, BinOp)> {
    seq![
        (TokenKind::DoubleEqual, BinOp::DoubleEqual),
        (TokenKind::NotEqual, BinOp::NotEqual),
        (TokenKind::Indentity, BinOp::IndentityOp),
    ]
}

pub open spec fn op_at(ts: Seq<Token>, p: int, ops: Seq<(TokenKind, BinOp)>) -> Option<BinOp> {
    match kind_at(ts, p) {
        Some(k) => is_binop_token(k, ops),
        None => None,
    }
}

/// `:= [!] unary`
pub open spec fn parse_identity_spec(ts: Seq<Token>, p: int, vs: Set<Seq<char>>) -> Parsed<ExprV>
    decreases remaining(ts, p), 0nat,
{
    match expect_spec(ts, p, vs, TokenKind::Indentity) {
        Parsed::Done(_, _, vs1) => {
            let negated = kind_at(ts, p + 1) == Some(TokenKind::Not);
            let q = if negated { p + 2 } else { p + 1 };
            match parse_unary_spec(ts, q, vs1) {
                Parsed::Done(e, c, vs2) => Parsed::Done(
                    ExprV::Identity { expr: Box::new(e), negated },
                    c + (q - p) as nat,
                    vs2,
                ),
                r => fail_after(r, (q - p) as nat),
            }
        },
        r => fail_after(r, 0),
    }
}

/// Literals, identifiers, calls `name(args)` and vector literals.
pub open spec fn parse_primary_spec(ts: Seq<Token>, p: int, vs: Set<Seq<char>>) -> Parsed<ExprV>
    decreases remaining(ts, p), 1nat,
{
    match kind_at(ts, p) {
        None => Parsed::Stuck,
        Some(k) => match k {
            TokenKind::Indentity => parse_identity_spec(ts, p, vs),
            TokenKind::UIntLiteral(v) => if v > u64::MAX {
                Parsed::Done(ExprV::U128Literal(v), 1, vs)
            } else {
                Parsed::Done(ExprV::UIntLiteral(v as u64), 1, vs)
            },
            TokenKind::IntLiteral(v) => if v > i64::MAX {
                Parsed::Done(ExprV::I128Literal(v), 1, vs)
            } else {
                Parsed::Done(ExprV::IntLiteral(v as i64), 1, vs)
            },
            TokenKind::NegIntLiteral(v) => if v < i64::MIN {
                Parsed::Done(ExprV::I128Literal(v), 1, vs)
            } else {
                Parsed::Done(ExprV::IntLiteral(v as i64), 1, vs)
            },
            TokenKind::BoolLiteral(v) => Parsed::Done(ExprV::BoolLiteral(v), 1, vs),
            TokenKind::StringLiteral(v) => Parsed::Done(ExprV::StringLiteral(v), 1, vs),
            TokenKind::Ident(name) => if kind_at(ts, p + 1) == Some(TokenKind::LeftParen) {
                match call_args_spec(ts, p + 2, vs, seq![]) {
                    Parsed::Done(args, c, vs1) => match expect_spec(ts, p + 2 + c, vs1, TokenKind::RightParen) {
                        Parsed::Done(_, _, vs2) => Parsed::Done(ExprV::Call { name, args }, c + 3, vs2),
                        r => fail_after(r, c + 2),
                    },
                    r => fail_after(r, 2),
                }
            } else {
                Parsed::Done(ExprV::Ident(name), 1, vs)
            },
            TokenKind::VecLiteral(values) => Parsed::Done(
                ExprV::Vec {
                    values: Seq::new(values@.len(), |i: int| ExprV::IntLiteral(values@[i] as i64)),
                    size: values@.len() as usize,
                },
                1,
                vs,
            ),
            _ => Parsed::Failed(
                err_at(ts, p, ParserErrorKind::InvalidExpression, MessageV::InvalidExpression(kind_view(k))),
                0,
                vs,
            ),
        },
    }
}

/// Call arguments after `(`: expressions separated by commas, up to (not
/// including) the `)`; `acc` holds those read so far.
pub open spec fn call_args_spec(ts: Seq<Token>, p: int, vs: Set<Seq<char>>, acc: Seq<ExprV>) -> Parsed<Seq<ExprV>>
    decreases remaining(ts, p), 12nat,
{
    if kind_at(ts, p) == Some(TokenKind::RightParen) {
        Parsed::Done(acc, 0, vs)
    } else {
        match parse_expr_spec(ts, p, vs) {
            Parsed::Done(e, c, vs1) => if kind_at(ts, p + c) == Some(TokenKind::Comma) {
                shift(call_args_spec(ts, p + c + 1, vs1, acc.push(e)), c + 1)
            } else {
                Parsed::Done(acc.push(e), c, vs1)
            },
            r => fail_after(r, 0),
        }
    }
}

/// `:=` expressions, `!` negations, then primaries.
pub open spec fn parse_unary_spec(ts: Seq<Token>, p: int, vs: Set<Seq<char>>) -> Parsed<ExprV>
    decreases remaining(ts, p), 2nat,
{
    if kind_at(ts, p) == Some(TokenKind::Indentity) {
        parse_identity_spec(ts, p, vs)
    } else if kind_at(ts, p) == Some(TokenKind::Not) {
        match parse_unary_spec(ts, p + 1, vs) {
            Parsed::Done(e, c, vs1) => Parsed::Done(
                ExprV::Identity { expr: Box::new(e), negated: true },
                c + 1,
                vs1,
            ),
            r => fail_after(r, 1),
        }
    } else {
        parse_primary_spec(ts, p, vs)
    }
}

/// The left-associative tail `(op operand)*` of the `* / %` level, after
/// the operand `left`.
pub open spec fn term_rest_spec(ts: Seq<Token>, p: int, vs: Set<Seq<char>>, left: ExprV) -> Parsed<ExprV>
    decreases remaining(ts, p), 3nat,
{
    match op_at(ts, p, mul_ops()) {
        Some(op) => match parse_unary_spec(ts, p + 1, vs) {
            Parsed::Done(right, c, vs1) => shift(
                term_rest_spec(
                    ts,
                    p + 1 + c,
                    vs1,
                    ExprV::BinaryOp { left: Box::new(left), op, right: Box::new(right) },
                ),
                c + 1,
            ),
            r => fail_after(r, 1),
        },
        None => Parsed::Done(left, 0, vs),
    }
}

pub open spec fn parse_term_spec(ts: Seq<Token>, p: int, vs: Set<Seq<char>>) -> Parsed<ExprV>
    decreases remaining(ts, p), 4nat,
{
    match parse_unary_spec(ts, p, vs) {
        Parsed::Done(e, c, vs1) => shift(term_rest_spec(ts, p + c, vs1, e), c),
        r => r,
    }
}

pub open spec fn add_rest_spec(ts: Seq<Token>, p: int, vs: Set<Seq<char>>, left: ExprV) -> Parsed<ExprV>
    decreases remaining(ts, p), 5nat,
{
    match op_at(ts, p, add_ops()) {
        Some(op) => match parse_term_spec(ts, p + 1, vs) {
            Parsed::Done(right, c, vs1) => shift(
                add_rest_spec(
                    ts,
                    p + 1 + c,
                    vs1,
                    ExprV::BinaryOp { left: Box::new(left), op, right: Box::new(right) },
                ),
                c + 1,
            ),
            r => fail_after(r, 1),
        },
        None => Parsed::Done(left, 0, vs),
    }
}

pub open spec fn parse_addition_spec(ts: Seq<Token>, p: int, vs: Set<Seq<char>>) -> Parsed<ExprV>
    decreases remaining(ts, p), 6nat,
{
    match parse_term_spec(ts, p, vs) {
        Parsed::Done(e, c, vs1) => shift(add_rest_spec(ts, p + c, vs1, e), c),
        r => r,
    }
}

pub open spec fn cmp_rest_spec(ts: Seq<Token>, p: int, vs: Set<Seq<char>>, left: ExprV) -> Parsed<ExprV>
    decreases remaining(ts, p), 7nat,
{
    match op_at(ts, p, cmp_ops()) {
        Some(op) => match parse_addition_spec(ts, p + 1, vs) {
            Parsed::Done(right, c, vs1) => shift(
                cmp_rest_spec(
                    ts,
                    p + 1 + c,
                    vs1,
                    ExprV::BinaryOp { left: Box::new(left), op, right: Box::new(right) },
                ),
                c + 1,
            ),
            r => fail_after(r, 1),
        },
        None => Parsed::Done(left, 0, vs),
    }
}

pub open spec fn parse_comparison_spec(ts: Seq<Token>, p: int, vs: Set<Seq<char>>) -> Parsed<ExprV>
    decreases remaining(ts, p), 8nat,
{
    match parse_addition_spec(ts, p, vs) {
        Parsed::Done(e, c, vs1) => shift(cmp_rest_spec(ts, p + c, vs1, e), c),
        r => r,
    }
}

pub open spec fn eq_rest_spec(ts: Seq<Token>, p: int, vs: Set<Seq<char>>, left: ExprV) -> Parsed<ExprV>
    decreases remaining(ts, p), 9nat,
{
    match op_at(ts, p, eq_ops()) {
        Some(op) => match parse_comparison_spec(ts, p + 1, vs) {
            Parsed::Done(right, c, vs1) => shift(
                eq_rest_spec(
                    ts,
                    p + 1 + c,
                    vs1,
                    ExprV::BinaryOp { left: Box::new(left), op, right: Box::new(right) },
                ),
                c + 1,
            ),
            r => fail_after(r, 1),
        },
        None => Parsed::Done(left, 0, vs),
    }
}

pub open spec fn parse_equality_spec(ts: Seq<Token>, p: int, vs: Set<Seq<char>>) -> Parsed<ExprV>
    decreases remaining(ts, p), 10nat,
{
    match parse_comparison_spec(ts, p, vs) {
        Parsed::Done(e, c, vs1) => shift(eq_rest_spec(ts, p + c, vs1, e), c),
        r => r,
    }
}

/// Expressions, by decreasing precedence: unary; `* / %`; `+ -`;
/// `>= > <= <`; `== != :=`; all binary levels associate to the left.
pub open spec fn parse_expr_spec(ts: Seq<Token>, p: int, vs: Set<Seq<char>>) -> Parsed<ExprV>
    decreases remaining(ts, p), 11nat,
{
    parse_equality_spec(ts, p, vs)
}


/// `{`-less block contents: statements up to a `}` or the end of input,
/// then the `}` itself.
pub open spec fn parse_block_spec(ts: Seq<Token>, p: int, vs: Set<Seq<char>>) -> Parsed<Seq<StmtV>>
    decreases remaining(ts, p), 4nat,
{
    match block_items_spec(ts, p, vs, seq![]) {
        Parsed::Done(b, c, vs1) => match expect_spec(ts, p + c, vs1, TokenKind::RightBrace) {
            Parsed::Done(_, _, vs2) => Parsed::Done(b, c + 1, vs2),
            r => fail_after(r, c),
        },
        r => r,
    }
}

/// Statements up to (not including) a `}` or the end of input; `acc`
/// holds those read so far. (A statement that consumed nothing would make no
/// progress; the parser would then give up. No statement form does.)
pub open spec fn block_items_spec(ts: Seq<Token>, p: int, vs: Set<Seq<char>>, acc: Seq<StmtV>) -> Parsed<Seq<StmtV>>
    decreases remaining(ts, p), 3nat,
{
    match kind_at(ts, p) {
        None => Parsed::Stuck,
        Some(k) => if k == TokenKind::RightBrace || k == TokenKind::EOF {
            Parsed::Done(acc, 0, vs)
        } else {
            match parse_statement_spec(ts, p, vs) {
                Parsed::Done(st, c, vs1) => if c == 0 {
                    Parsed::Stuck
                } else {
                    shift(block_items_spec(ts, p + c, vs1, acc.push(st)), c)
                },
                r => fail_after(r, 0),
            }
        },
    }
}

/// One statement, chosen by its first token; any other first token makes
/// the parser give up.
pub open spec fn parse_statement_spec(ts: Seq<Token>, p: int, vs: Set<Seq<char>>) -> Parsed<StmtV>
    decreases remaining(ts, p), 2nat,
{
    match kind_at(ts, p) {
        None => Parsed::Stuck,
        Some(k) => match k {
            TokenKind::Fun => parse_funcdecl_spec(ts, p, vs),
            TokenKind::Var | TokenKind::Const => parse_var_decl_spec(ts, p, vs),
            TokenKind::If => parse_if_spec(ts, p, vs),
            TokenKind::For => parse_for_spec(ts, p, vs),
            TokenKind::When => parse_when_spec(ts, p, vs),
            TokenKind::Loop => parse_loop_spec(ts, p, vs),
            TokenKind::While => parse_while_spec(ts, p, vs),
            TokenKind::Print => parse_print_spec(ts, p, vs),
            TokenKind::Return => match parse_expr_spec(ts, p + 1, vs) {
                Parsed::Done(e, c, vs1) => match expect_spec(ts, p + 1 + c, vs1, TokenKind::Semicolon) {
                    Parsed::Done(_, _, vs2) => Parsed::Done(StmtV::Return(e), c + 2, vs2),
                    r => fail_after(r, c + 1),
                },
                r => fail_after(r, 1),
            },
            TokenKind::Break => match expect_spec(ts, p + 1, vs, TokenKind::Semicolon) {
                Parsed::Done(_, _, vs1) => Parsed::Done(StmtV::Break, 2, vs1),
                r => fail_after(r, 1),
            },
            TokenKind::Continue => match expect_spec(ts, p + 1, vs, TokenKind::Semicolon) {
                Parsed::Done(_, _, vs1) => Parsed::Done(StmtV::Continue, 2, vs1),
                r => fail_after(r, 1),
            },
            TokenKind::Ident(_) => parse_assignment_spec(ts, p, vs),
            _ => Parsed::Stuck,
        },
    }
}

/// The compound assignment operator of a token kind, if it is one.
pub open spec fn compound_op(k: TokenKind) -> Option<BinOp> {
    if k == TokenKind::CompoundAdd {
        Some(BinOp::CompoundAdd)
    } else if k == TokenKind::CompoundSub {
        Some(BinOp::CompoundSub)
    } else if k == TokenKind::CompoundMul {
        Some(BinOp::CompoundMul)
    } else if k == TokenKind::CompoundDiv {
        Some(BinOp::CompoundDiv)
    } else {
        None
    }
}

/// `name = expr ;` or `name op= expr ;`.
pub open spec fn parse_assignment_spec(ts: Seq<Token>, p: int, vs: Set<Seq<char>>) -> Parsed<StmtV>
    decreases remaining(ts, p), 1nat,
{
    match expect_ident_spec(ts, p, vs) {
        Parsed::Done(name, _, vs1) => match kind_at(ts, p + 1) {
            None => Parsed::Stuck,
            Some(k) => if k == TokenKind::Equal || compound_op(k) is Some {
                shift(assign_rest_spec(ts, p + 2, vs1, name, compound_op(k)), 2)
            } else {
                Parsed::Failed(
                    err_at(ts, p + 1, ParserErrorKind::InvalidExpression, MessageV::UnexpectedAfterIdent),
                    1,
                    vs1,
                )
            },
        },
        r => fail_after(r, 0),
    }
}

/// The `expr ;` of an assignment to `name` (compound when `op` is given).
pub open spec fn assign_rest_spec(ts: Seq<Token>, p: int, vs: Set<Seq<char>>, name: String, op: Option<BinOp>) -> Parsed<StmtV> {
    match parse_expr_spec(ts, p, vs) {
        Parsed::Done(e, c, vs1) => match expect_spec(ts, p + c, vs1, TokenKind::Semicolon) {
            Parsed::Done(_, _, vs2) => Parsed::Done(
                match op {
                    Some(o) => StmtV::CompoundAssign { target: name, op: o, value: e },
                    None => StmtV::Assignment { target: name, value: e },
                },
                c + 1,
                vs2,
            ),
            r => fail_after(r, c),
        },
        r => fail_after(r, 0),
    }
}

/// `print ( items ) ;` where the items are expressions, commas skipped.
pub open spec fn parse_print_spec(ts: Seq<Token>, p: int, vs: Set<Seq<char>>) -> Parsed<StmtV>
    decreases remaining(ts, p), 1nat,
{
    match expect_spec(ts, p, vs, TokenKind::Print) {
        Parsed::Done(_, _, vs0) => match expect_spec(ts, p + 1, vs0, TokenKind::LeftParen) {
            Parsed::Done(_, _, vs1) => match print_items_spec(ts, p + 2, vs1, seq![]) {
                Parsed::Done(items, c, vs2) => shift(print_tail_spec(ts, p + 2 + c, vs2, items), c + 2),
                r => fail_after(r, 2),
            },
            r => fail_after(r, 1),
        },
        r => fail_after(r, 0),
    }
}

/// The `) ;` closing a print of `items`.
pub open spec fn print_tail_spec(ts: Seq<Token>, p: int, vs: Set<Seq<char>>, items: Seq<ExprV>) -> Parsed<StmtV> {
    match expect_spec(ts, p, vs, TokenKind::RightParen) {
        Parsed::Done(_, _, vs1) => match expect_spec(ts, p + 1, vs1, TokenKind::Semicolon) {
            Parsed::Done(_, _, vs2) => Parsed::Done(StmtV::Print(items), 2, vs2),
            r => fail_after(r, 1),
        },
        r => fail_after(r, 0),
    }
}

pub open spec fn print_items_spec(ts: Seq<Token>, p: int, vs: Set<Seq<char>>, acc: Seq<ExprV>) -> Parsed<Seq<ExprV>>
    decreases remaining(ts, p),
{
    match kind_at(ts, p) {
        None => Parsed::Stuck,
        Some(k) => if k == TokenKind::RightParen || k == TokenKind::EOF {
            Parsed::Done(acc, 0, vs)
        } else if k == TokenKind::Comma {
            shift(print_items_spec(ts, p + 1, vs, acc), 1)
        } else {
            match parse_expr_spec(ts, p, vs) {
                Parsed::Done(e, c, vs1) => if c == 0 {
                    Parsed::Stuck
                } else {
                    shift(print_items_spec(ts, p + c, vs1, acc.push(e)), c)
                },
                r => fail_after(r, 0),
            }
        },
    }
}

/// `loop { block }`
pub open spec fn parse_loop_spec(ts: Seq<Token>, p: int, vs: Set<Seq<char>>) -> Parsed<StmtV>
    decreases remaining(ts, p), 1nat,
{
    match expect_spec(ts, p, vs, TokenKind::Loop) {
        Parsed::Done(_, _, vs0) => match expect_spec(ts, p + 1, vs0, TokenKind::LeftBrace) {
            Parsed::Done(_, _, vs1) => match parse_block_spec(ts, p + 2, vs1) {
                Parsed::Done(b, c, vs2) => Parsed::Done(StmtV::Loop { body: b }, c + 2, vs2),
                r => fail_after(r, 2),
            },
            r => fail_after(r, 1),
        },
        r => fail_after(r, 0),
    }
}

/// `while ( expr ) { block }`
pub open spec fn parse_while_spec(ts: Seq<Token>, p: int, vs: Set<Seq<char>>) -> Parsed<StmtV>
    decreases remaining(ts, p), 1nat,
{
    match expect_spec(ts, p, vs, TokenKind::While) {
        Parsed::Done(_, _, vs0) => match expect_spec(ts, p + 1, vs0, TokenKind::LeftParen) {
            Parsed::Done(_, _, vs1) => match parse_expr_spec(ts, p + 2, vs1) {
                Parsed::Done(cond, c, vs2) => shift(while_tail_spec(ts, p + 2 + c, vs2, cond), c + 2),
                r => fail_after(r, 2),
            },
            r => fail_after(r, 1),
        },
        r => fail_after(r, 0),
    }
}

/// The `) { block }` of a while loop on `cond`.
pub open spec fn while_tail_spec(ts: Seq<Token>, p: int, vs: Set<Seq<char>>, cond: ExprV) -> Parsed<StmtV>
    decreases remaining(ts, p), 0nat,
{
    match expect_spec(ts, p, vs, TokenKind::RightParen) {
        Parsed::Done(_, _, vs1) => match expect_spec(ts, p + 1, vs1, TokenKind::LeftBrace) {
            Parsed::Done(_, _, vs2) => match parse_block_spec(ts, p + 2, vs2) {
                Parsed::Done(body, c, vs3) => Parsed::Done(StmtV::WhileLoop { cond, body }, c + 2, vs3),
                r => fail_after(r, 2),
            },
            r => fail_after(r, 1),
        },
        r => fail_after(r, 0),
    }
}

/// `for name in start .. end { block }` or
/// `for name in start .. step .. end { block }`
pub open spec fn parse_for_spec(ts: Seq<Token>, p: int, vs: Set<Seq<char>>) -> Parsed<StmtV>
    decreases remaining(ts, p), 1nat,
{
    match expect_spec(ts, p, vs, TokenKind::For) {
        Parsed::Done(_, _, vs0) => match expect_ident_spec(ts, p + 1, vs0) {
            Parsed::Done(var, _, vs1) => match expect_spec(ts, p + 2, vs1, TokenKind::In) {
                Parsed::Done(_, _, vs2) => shift(for_start_spec(ts, p + 3, vs2, var), 3),
                r => fail_after(r, 2),
            },
            r => fail_after(r, 1),
        },
        r => fail_after(r, 0),
    }
}

/// `start .. next` of a for loop over `var`, then the rest.
pub open spec fn for_start_spec(ts: Seq<Token>, p: int, vs: Set<Seq<char>>, var: String) -> Parsed<StmtV>
    decreases remaining(ts, p), 0nat,
{
    match parse_expr_spec(ts, p, vs) {
        Parsed::Done(start, c1, vs1) => match expect_spec(ts, p + c1, vs1, TokenKind::Range) {
            Parsed::Done(_, _, vs2) => match parse_expr_spec(ts, p + c1 + 1, vs2) {
                Parsed::Done(next, c2, vs3) => shift(
                    for_range_spec(ts, p + c1 + 1 + c2, vs3, var, start, next),
                    c1 + 1 + c2,
                ),
                r => fail_after(r, c1 + 1),
            },
            r => fail_after(r, c1),
        },
        r => fail_after(r, 0),
    }
}

/// After `start .. next`: either `.. end` (then `next` is the step) or
/// nothing (then `next` is the end), followed by the body.
pub open spec fn for_range_spec(
    ts: Seq<Token>,
    p: int,
    vs: Set<Seq<char>>,
    var: String,
    start: ExprV,
    next: ExprV,
) -> Parsed<StmtV>
    decreases remaining(ts, p), 1nat,
{
    if kind_at(ts, p) == Some(TokenKind::Range) {
        match parse_expr_spec(ts, p + 1, vs) {
            Parsed::Done(end, c, vs1) => shift(for_tail_spec(ts, p + 1 + c, vs1, var, start, Some(next), end), c + 1),
            r => fail_after(r, 1),
        }
    } else {
        for_tail_spec(ts, p, vs, var, start, None, next)
    }
}

/// The `{ block }` of a for loop.
pub open spec fn for_tail_spec(
    ts: Seq<Token>,
    p: int,
    vs: Set<Seq<char>>,
    var: String,
    start: ExprV,
    step: Option<ExprV>,
    end: ExprV,
) -> Parsed<StmtV>
    decreases remaining(ts, p), 0nat,
{
    match expect_spec(ts, p, vs, TokenKind::LeftBrace) {
        Parsed::Done(_, _, vs1) => match parse_block_spec(ts, p + 1, vs1) {
            Parsed::Done(body, c, vs2) => Parsed::Done(StmtV::ForLoop { var, start, step, end, body }, c + 1, vs2),
            r => fail_after(r, 1),
        },
        r => fail_after(r, 0),
    }
}

/// `when expr { arms }` where each arm is `expr => { block }` and an
/// `else => { block }` arm ends the list.
pub open spec fn parse_when_spec(ts: Seq<Token>, p: int, vs: Set<Seq<char>>) -> Parsed<StmtV>
    decreases remaining(ts, p), 1nat,
{
    match expect_spec(ts, p, vs, TokenKind::When) {
        Parsed::Done(_, _, vs0) => match parse_expr_spec(ts, p + 1, vs0) {
            Parsed::Done(condition, c, vs1) => shift(when_open_spec(ts, p + 1 + c, vs1, condition), c + 1),
            r => fail_after(r, 1),
        },
        r => fail_after(r, 0),
    }
}

/// The `{` that opens the arms of a `when` on `condition`, then the arms.
pub open spec fn when_open_spec(ts: Seq<Token>, p: int, vs: Set<Seq<char>>, condition: ExprV) -> Parsed<StmtV>
    decreases remaining(ts, p), 0nat,
{
    match expect_spec(ts, p, vs, TokenKind::LeftBrace) {
        Parsed::Done(_, _, vs1) => shift(when_body_spec(ts, p + 1, vs1, condition), 1),
        r => fail_after(r, 0),
    }
}

/// The arms and closing `}` of a `when` on `condition`.
pub open spec fn when_body_spec(ts: Seq<Token>, p: int, vs: Set<Seq<char>>, condition: ExprV) -> Parsed<StmtV>
    decreases remaining(ts, p), 14nat,
{
    match when_arms_spec(ts, p, vs, seq![]) {
        Parsed::Done(arms_else, c, vs1) => match expect_spec(ts, p + c, vs1, TokenKind::RightBrace) {
            Parsed::Done(_, _, vs2) => Parsed::Done(
                StmtV::WhenStatement { condition, arms: arms_else.0, else_arm: arms_else.1 },
                c + 1,
                vs2,
            ),
            r => fail_after(r, c),
        },
        r => fail_after(r, 0),
    }
}

pub open spec fn when_arms_spec(
    ts: Seq<Token>,
    p: int,
    vs: Set<Seq<char>>,
    acc: Seq<(ExprV, Seq<StmtV>)>,
) -> Parsed<(Seq<(ExprV, Seq<StmtV>)>, Option<Seq<StmtV>>)>
    decreases remaining(ts, p), 13nat,
{
    match kind_at(ts, p) {
        None => Parsed::Stuck,
        Some(k) => if k == TokenKind::RightBrace || k == TokenKind::EOF {
            Parsed::Done((acc, None), 0, vs)
        } else if k == TokenKind::Else {
            match expect_spec(ts, p + 1, vs, TokenKind::FatArrow) {
                Parsed::Done(_, _, vs1) => match parse_block_spec(ts, p + 2, vs1) {
                    Parsed::Done(b, c, vs2) => Parsed::Done((acc, Some(b)), c + 2, vs2),
                    r => fail_after(r, 2),
                },
                r => fail_after(r, 1),
            }
        } else {
            match parse_expr_spec(ts, p, vs) {
                Parsed::Done(value, c, vs1) => shift(when_arm_spec(ts, p + c, vs1, acc, value), c),
                r => fail_after(r, 0),
            }
        },
    }
}

/// The `=> { block }` of an arm on `value`, then the remaining arms.
pub open spec fn when_arm_spec(
    ts: Seq<Token>,
    p: int,
    vs: Set<Seq<char>>,
    acc: Seq<(ExprV, Seq<StmtV>)>,
    value: ExprV,
) -> Parsed<(Seq<(ExprV, Seq<StmtV>)>, Option<Seq<StmtV>>)>
    decreases remaining(ts, p), 12nat,
{
    match expect_spec(ts, p, vs, TokenKind::FatArrow) {
        Parsed::Done(_, _, vs1) => match parse_block_spec(ts, p + 1, vs1) {
            Parsed::Done(b, c, vs2) => shift(when_arms_spec(ts, p + 1 + c, vs2, acc.push((value, b))), c + 1),
            r => fail_after(r, 1),
        },
        r => fail_after(r, 0),
    }
}

/// `if ( expr ) { block }` optionally followed by `else { block }` or by
/// `else if ...` (held as an else branch of one statement).
pub open spec fn parse_if_spec(ts: Seq<Token>, p: int, vs: Set<Seq<char>>) -> Parsed<StmtV>
    decreases remaining(ts, p), 1nat,
{
    match expect_spec(ts, p, vs, TokenKind::If) {
        Parsed::Done(_, _, vs0) => match expect_spec(ts, p + 1, vs0, TokenKind::LeftParen) {
            Parsed::Done(_, _, vs1) => match parse_expr_spec(ts, p + 2, vs1) {
                Parsed::Done(condition, c, vs2) => shift(if_cond_spec(ts, p + 2 + c, vs2, condition), c + 2),
                r => fail_after(r, 2),
            },
            r => fail_after(r, 1),
        },
        r => fail_after(r, 0),
    }
}

/// The `) { block }` after the condition of an if, then its else part.
pub open spec fn if_cond_spec(ts: Seq<Token>, p: int, vs: Set<Seq<char>>, condition: ExprV) -> Parsed<StmtV>
    decreases remaining(ts, p), 0nat,
{
    match expect_spec(ts, p, vs, TokenKind::RightParen) {
        Parsed::Done(_, _, vs1) => match expect_spec(ts, p + 1, vs1, TokenKind::LeftBrace) {
            Parsed::Done(_, _, vs2) => match parse_block_spec(ts, p + 2, vs2) {
                Parsed::Done(then_branch, c, vs3) => shift(
                    if_else_spec(ts, p + 2 + c, vs3, condition, then_branch),
                    c + 2,
                ),
                r => fail_after(r, 2),
            },
            r => fail_after(r, 1),
        },
        r => fail_after(r, 0),
    }
}

/// The optional else part of an if.
pub open spec fn if_else_spec(
    ts: Seq<Token>,
    p: int,
    vs: Set<Seq<char>>,
    condition: ExprV,
    then_branch: Seq<StmtV>,
) -> Parsed<StmtV>
    decreases remaining(ts, p), 0nat,
{
    if kind_at(ts, p) == Some(TokenKind::Else) {
        if kind_at(ts, p + 1) == Some(TokenKind::If) {
            match parse_if_spec(ts, p + 1, vs) {
                Parsed::Done(inner, c, vs1) => Parsed::Done(
                    StmtV::IfStatement { condition, then_branch, else_branch: Some(seq![inner]) },
                    c + 1,
                    vs1,
                ),
                r => fail_after(r, 1),
            }
        } else {
            match expect_spec(ts, p + 1, vs, TokenKind::LeftBrace) {
                Parsed::Done(_, _, vs1) => match parse_block_spec(ts, p + 2, vs1) {
                    Parsed::Done(else_b, c, vs2) => Parsed::Done(
                        StmtV::IfStatement { condition, then_branch, else_branch: Some(else_b) },
                        c + 2,
                        vs2,
                    ),
                    r => fail_after(r, 2),
                },
                r => fail_after(r, 1),
            }
        }
    } else {
        Parsed::Done(StmtV::IfStatement { condition, then_branch, else_branch: None }, 0, vs)
    }
}

/// `( )` or `( type name , type name ... )`.
pub open spec fn parse_params_spec(ts: Seq<Token>, p: int, vs: Set<Seq<char>>) -> Parsed<Seq<(Type, String)>> {
    match expect_spec(ts, p, vs, TokenKind::LeftParen) {
        Parsed::Done(_, _, vs0) => if kind_at(ts, p + 1) == Some(TokenKind::RightParen) {
            Parsed::Done(seq![], 2, vs0)
        } else {
            match params_list_spec(ts, p + 1, vs0, seq![]) {
                Parsed::Done(ps, c, vs1) => match expect_spec(ts, p + 1 + c, vs1, TokenKind::RightParen) {
                    Parsed::Done(_, _, vs2) => Parsed::Done(ps, c + 2, vs2),
                    r => fail_after(r, c + 1),
                },
                r => fail_after(r, 1),
            }
        },
        r => fail_after(r, 0),
    }
}

pub open spec fn params_list_spec(ts: Seq<Token>, p: int, vs: Set<Seq<char>>, acc: Seq<(Type, String)>) -> Parsed<Seq<(Type, String)>>
    decreases remaining(ts, p),
{
    match parse_type_spec(ts, p, vs) {
        Parsed::Done(ty, c, vs1) => match expect_ident_spec(ts, p + c, vs1) {
            Parsed::Done(name, _, vs2) => if kind_at(ts, p + c + 1) == Some(TokenKind::Comma) {
                shift(params_list_spec(ts, p + c + 2, vs2, acc.push((ty, name))), c + 2)
            } else {
                Parsed::Done(acc.push((ty, name)), c + 1, vs2)
            },
            r => fail_after(r, c),
        },
        r => fail_after(r, 0),
    }
}

/// `fun type name ( params ) { block }`
pub open spec fn parse_funcdecl_spec(ts: Seq<Token>, p: int, vs: Set<Seq<char>>) -> Parsed<StmtV>
    decreases remaining(ts, p), 1nat,
{
    match expect_spec(ts, p, vs, TokenKind::Fun) {
        Parsed::Done(_, _, vs0) => match parse_type_spec(ts, p + 1, vs0) {
            Parsed::Done(ret, c1, vs1) => match expect_ident_spec(ts, p + 1 + c1, vs1) {
                Parsed::Done(name, _, vs2) => shift(func_rest_spec(ts, p + 2 + c1, vs2, ret, name), c1 + 2),
                r => fail_after(r, c1 + 1),
            },
            r => fail_after(r, 1),
        },
        r => fail_after(r, 0),
    }
}

/// The `( params ) { block }` of a function returning `ret`.
pub open spec fn func_rest_spec(ts: Seq<Token>, p: int, vs: Set<Seq<char>>, ret: Type, name: String) -> Parsed<StmtV>
    decreases remaining(ts, p), 0nat,
{
    match parse_params_spec(ts, p, vs) {
        Parsed::Done(params, c1, vs1) => match expect_spec(ts, p + c1, vs1, TokenKind::LeftBrace) {
            Parsed::Done(_, _, vs2) => match parse_block_spec(ts, p + c1 + 1, vs2) {
                Parsed::Done(body, c2, vs3) => Parsed::Done(
                    StmtV::FuncDecl { name, params, return_type: Some(ret), body },
                    c1 + c2 + 1,
                    vs3,
                ),
                r => fail_after(r, c1 + 1),
            },
            r => fail_after(r, c1),
        },
        r => fail_after(r, 0),
    }
}

/// `const type name = expr ;` or `var type name = expr ;`, where the type
/// may be left out (`var name = expr ;`). A name declared before (anywhere
/// earlier in the input) is an error, reported at the token after the `;`;
/// otherwise the name is recorded.
pub open spec fn parse_var_decl_spec(ts: Seq<Token>, p: int, vs: Set<Seq<char>>) -> Parsed<StmtV>
    decreases remaining(ts, p), 1nat,
{
    let is_const = kind_at(ts, p) == Some(TokenKind::Const);
    let head = if is_const { Parsed::Done((), 1, vs) } else { expect_spec(ts, p, vs, TokenKind::Var) };
    let mutability = if is_const { Mutability::Const } else { Mutability::Mutable };
    match head {
        Parsed::Done(_, _, vs0) => match kind_at(ts, p + 1) {
            Some(TokenKind::Ident(name)) => shift(var_infer_rest_spec(ts, p + 2, vs0, mutability, name), 2),
            _ => shift(var_typed_spec(ts, p + 1, vs0, mutability), 1),
        },
        r => fail_after(r, 0),
    }
}

/// `type name = expr ;`, the rest of a declaration with a type.
pub open spec fn var_typed_spec(ts: Seq<Token>, p: int, vs: Set<Seq<char>>, mutability: Mutability) -> Parsed<StmtV> {
    match parse_type_spec(ts, p, vs) {
        Parsed::Done(ty, c1, vs1) => match expect_ident_spec(ts, p + c1, vs1) {
            Parsed::Done(name, _, vs2) => shift(var_rest_spec(ts, p + 1 + c1, vs2, mutability, ty, name), c1 + 1),
            r => fail_after(r, c1),
        },
        r => fail_after(r, 0),
    }
}

/// The `= expr ;` of a declaration of `name`, then the check for an earlier
/// declaration of the same name.
pub open spec fn var_rest_spec(
    ts: Seq<Token>,
    p: int,
    vs: Set<Seq<char>>,
    mutability: Mutability,
    ty: Type,
    name: String,
) -> Parsed<StmtV> {
    match expect_spec(ts, p, vs, TokenKind::Equal) {
        Parsed::Done(_, _, vs1) => match parse_expr_spec(ts, p + 1, vs1) {
            Parsed::Done(value, c, vs2) => shift(var_tail_spec(ts, p + 1 + c, vs2, mutability, ty, name, value), c + 1),
            r => fail_after(r, 1),
        },
        r => fail_after(r, 0),
    }
}

/// A value from which a declaration without a type takes its type: an
/// integer or boolean literal.
pub open spec fn inferable(e: ExprV) -> bool {
    e is UIntLiteral || e is IntLiteral || e is BoolLiteral
}

/// The `= expr ;` of a declaration of `name` without a type: the type is
/// the one read from the value (see `infer_type_spec`). Another value is
/// an error, reported at its first token.
pub open spec fn var_infer_rest_spec(
    ts: Seq<Token>,
    p: int,
    vs: Set<Seq<char>>,
    mutability: Mutability,
    name: String,
) -> Parsed<StmtV> {
    match expect_spec(ts, p, vs, TokenKind::Equal) {
        Parsed::Done(_, _, vs1) => match parse_expr_spec(ts, p + 1, vs1) {
            Parsed::Done(value, c, vs2) => if inferable(value) {
                shift(var_tail_spec(ts, p + 1 + c, vs2, mutability, infer_type_spec(value), name, value), c + 1)
            } else {
                Parsed::Failed(
                    err_at(ts, p + 1, ParserErrorKind::InvalidVariableDecl, MessageV::CannotInferType(name@)),
                    c + 1,
                    vs2,
                )
            },
            r => fail_after(r, 1),
        },
        r => fail_after(r, 0),
    }
}

/// The `;` that ends a declaration of `name`, then the check for an earlier
/// declaration of the same name.
pub open spec fn var_tail_spec(
    ts: Seq<Token>,
    p: int,
    vs: Set<Seq<char>>,
    mutability: Mutability,
    ty: Type,
    name: String,
    value: ExprV,
) -> Parsed<StmtV> {
    match expect_spec(ts, p, vs, TokenKind::Semicolon) {
        Parsed::Done(_, _, vs1) => if vs1.contains(name@) {
            match kind_at(ts, p + 1) {
                None => Parsed::Stuck,
                Some(_) => Parsed::Failed(
                    err_at(ts, p + 1, ParserErrorKind::DuplicateVariableError, MessageV::AlreadyDeclared(name@)),
                    1,
                    vs1,
                ),
            }
        } else {
            Parsed::Done(StmtV::VarDecl { name, ty, value, mutability }, 1, vs1.insert(name@))
        },
        r => fail_after(r, 0),
    }
}

/// The outcome of parsing one statement at `p`, kept folded where whole
/// inputs are reasoned about.
#[verifier::opaque]
pub open spec fn statement_outcome(ts: Seq<Token>, p: int, vs: Set<Seq<char>>) -> Parsed<StmtV> {
    parse_statement_spec(ts, p, vs)
}

/// Where error recovery resumes: skip to the next `;`, `}`, `fun`, `var`,
/// `if`, `for` or `return` (or the end of input), then past it unless it is
/// the end of input.
pub open spec fn sync_stop(ts: Seq<Token>, p: int) -> int
    decreases remaining(ts, p),
{
    match kind_at(ts, p) {
        None => p,
        Some(k) => if k == TokenKind::EOF {
            p
        } else if k == TokenKind::Semicolon || k == TokenKind::RightBrace || k == TokenKind::Fun
            || k == TokenKind::Var || k == TokenKind::If || k == TokenKind::For || k
            == TokenKind::Return {
            p + 1
        } else {
            sync_stop(ts, p + 1)
        },
    }
}

/// The whole input from `p`: statements until the end of input, each error
/// followed by recovery. `stmts` and `errs` hold what was found so far.
/// `None` where the parser gives up.
pub open spec fn parse_all_spec(
    ts: Seq<Token>,
    p: int,
    vs: Set<Seq<char>>,
    stmts: Seq<StmtV>,
    errs: Seq<PErr>,
) -> Option<(Seq<StmtV>, Seq<PErr>)>
    decreases remaining(ts, p),
{
    match kind_at(ts, p) {
        None => None,
        Some(k) => if k == TokenKind::EOF {
            Some((stmts, errs))
        } else {
            match statement_outcome(ts, p, vs) {
                Parsed::Done(st, c, vs1) => if c == 0 {
                    None
                } else {
                    parse_all_spec(ts, p + c, vs1, stmts.push(st), errs)
                },
                Parsed::Failed(e, c, vs1) => {
                    let q = sync_stop(ts, p + c);
                    if q <= p {
                        None
                    } else {
                        parse_all_spec(ts, q, vs1, stmts, errs.push(e))
                    }
                },
                Parsed::Stuck => None,
            }
        },
    }
}

/// The views of a sequence of parser errors.
pub open spec fn errs_view(s: Seq<ParserError>) -> Seq<PErr> {
    s.map_values(|e: ParserError| e.view())
}

pub proof fn lemma_errs_push(s: Seq<ParserError>, e: ParserError)
    ensures
        errs_view(s.push(e)) == errs_view(s).push(e.view()),
{
    assert(errs_view(s.push(e)) =~= errs_view(s).push(e.view()));
}

/// Recovery never moves back, and moves forward from any token but the end
/// of input.
pub proof fn lemma_sync_stop(ts: Seq<Token>, p: int)
    requires
        0 <= p,
    ensures
        sync_stop(ts, p) >= p,
        (kind_at(ts, p) matches Some(k) && k != TokenKind::EOF) ==> sync_stop(ts, p) > p,
        p <= ts.len() && ts.len() > 0 && ts.last().kind == TokenKind::EOF ==> sync_stop(ts, p) < ts.len()
            || p == ts.len(),
    decreases remaining(ts, p),
{
    if 0 <= p < ts.len() && ts[p].kind != TokenKind::EOF {
        lemma_sync_stop(ts, p + 1);
    }
}



// ---------------------------------------------------------------------
// Views of freshly built trees
// ---------------------------------------------------------------------

pub proof fn lemma_exprs_push(s: Seq<Expr>, e: Expr)
    ensures
        exprs_view(s.push(e)) == exprs_view(s).push(e.view()),
{
    assert(exprs_view(s.push(e)) =~= exprs_view(s).push(e.view()));
}

pub proof fn lemma_stmts_push(s: Seq<Stmt>, st: Stmt)
    ensures
        stmts_view(s.push(st)) == stmts_view(s).push(st.view()),
{
    assert(stmts_view(s.push(st)) =~= stmts_view(s).push(st.view()));
}

pub proof fn lemma_arms_push(s: Seq<(Expr, Vec<Stmt>)>, a: (Expr, Vec<Stmt>))
    ensures
        arms_view(s.push(a)) == arms_view(s).push((a.0.view(), stmts_view(a.1@))),
{
    assert(arms_view(s.push(a)) =~= arms_view(s).push((a.0.view(), stmts_view(a.1@))));
}

pub proof fn lemma_call_view(name: String, args: Vec<Expr>)
    ensures
        (Expr::Call { name, args }).view() == (ExprV::Call { name, args: exprs_view(args@) }),
{
    reveal(Expr::view);
    let e = Expr::Call { name, args };
    match e.view() {
        ExprV::Call { name: n, args: a } => {
            assert(a =~= exprs_view(args@));
        },
        _ => {},
    }
}

pub proof fn lemma_vec_view(values: Vec<Expr>, size: usize)
    ensures
        (Expr::Vec { values, size }).view() == (ExprV::Vec { values: exprs_view(values@), size }),
{
    reveal(Expr::view);
    let e = Expr::Vec { values, size };
    match e.view() {
        ExprV::Vec { values: a, size: n } => {
            assert(a =~= exprs_view(values@));
        },
        _ => {},
    }
}

pub proof fn lemma_simple_stmt_views(
    name: String,
    ty: Type,
    value: Expr,
    mutability: Mutability,
    op: BinOp,
)
    ensures
        (Stmt::VarDecl(VarDecl { name, ty, value, mutability })).view() == (StmtV::VarDecl {
            name,
            ty,
            value: value.view(),
            mutability,
        }),
        Stmt::Return(value).view() == StmtV::Return(value.view()),
        (Stmt::CompoundAssign { target: name, op, value }).view() == (StmtV::CompoundAssign {
            target: name,
            op,
            value: value.view(),
        }),
        (Stmt::Assignment(Assignment { target: name, value })).view() == (StmtV::Assignment {
            target: name,
            value: value.view(),
        }),
        Stmt::Break.view() == StmtV::Break,
        Stmt::Continue.view() == StmtV::Continue,
{
    reveal(Expr::view);
    reveal(Stmt::view);
}

pub proof fn lemma_func_view(f: FuncDecl)
    ensures
        Stmt::FuncDecl(f).view() == (StmtV::FuncDecl {
            name: f.name,
            params: f.params@,
            return_type: f.return_type,
            body: stmts_view(f.body@),
        }),
{
    reveal(Expr::view);
    reveal(Stmt::view);
    match Stmt::FuncDecl(f).view() {
        StmtV::FuncDecl { body, .. } => {
            assert(body =~= stmts_view(f.body@));
        },
        _ => {},
    }
}

pub proof fn lemma_if_view(s: IfStatement)
    ensures
        Stmt::IfStatement(s).view() == (StmtV::IfStatement {
            condition: s.condition.view(),
            then_branch: stmts_view(s.then_branch@),
            else_branch: opt_block_view(s.else_branch),
        }),
{
    reveal(Expr::view);
    reveal(Stmt::view);
    match Stmt::IfStatement(s).view() {
        StmtV::IfStatement { then_branch, else_branch, .. } => {
            assert(then_branch =~= stmts_view(s.then_branch@));
            match (else_branch, s.else_branch) {
                (Some(a), Some(b)) => {
                    assert(a =~= stmts_view(b@));
                },
                _ => {},
            }
        },
        _ => {},
    }
}

pub proof fn lemma_when_view(w: WhenStatement)
    ensures
        Stmt::WhenStatement(w).view() == (StmtV::WhenStatement {
            condition: w.condition.view(),
            arms: arms_view(w.arms@),
            else_arm: opt_block_view(w.else_arm),
        }),
{
    reveal(Expr::view);
    reveal(Stmt::view);
    match Stmt::WhenStatement(w).view() {
        StmtV::WhenStatement { arms, else_arm, .. } => {
            assert forall|i: int| 0 <= i < w.arms@.len() implies #[trigger] arms[i] == (
            w.arms@[i].0.view(), stmts_view(w.arms@[i].1@)) by {
                assert(arms[i].1 =~= stmts_view(w.arms@[i].1@));
            }
            assert(arms =~= arms_view(w.arms@));
            match (else_arm, w.else_arm) {
                (Some(a), Some(b)) => {
                    assert(a =~= stmts_view(b@));
                },
                _ => {},
            }
        },
        _ => {},
    }
}

pub proof fn lemma_for_view(f: ForLoop)
    ensures
        Stmt::ForLoop(f).view() == (StmtV::ForLoop {
            var: f.var,
            start: f.start.view(),
            step: opt_expr_view(f.step),
            end: f.end.view(),
            body: stmts_view(f.body@),
        }),
{
    reveal(Expr::view);
    reveal(Stmt::view);
    match Stmt::ForLoop(f).view() {
        StmtV::ForLoop { body, .. } => {
            assert(body =~= stmts_view(f.body@));
        },
        _ => {},
    }
}

pub proof fn lemma_loop_view(l: Loop)
    ensures
        Stmt::Loop(l).view() == (StmtV::Loop { body: stmts_view(l.body@) }),
{
    reveal(Expr::view);
    reveal(Stmt::view);
    match Stmt::Loop(l).view() {
        StmtV::Loop { body } => {
            assert(body =~= stmts_view(l.body@));
        },
        _ => {},
    }
}

pub proof fn lemma_while_view(w: WhileLoop)
    ensures
        Stmt::WhileLoop(w).view() == (StmtV::WhileLoop { cond: w.cond.view(), body: stmts_view(w.body@) }),
{
    reveal(Expr::view);
    reveal(Stmt::view);
    match Stmt::WhileLoop(w).view() {
        StmtV::WhileLoop { body, .. } => {
            assert(body =~= stmts_view(w.body@));
        },
        _ => {},
    }
}

pub proof fn lemma_print_view(es: Vec<Expr>)
    ensures
        Stmt::Print(es).view() == StmtV::Print(exprs_view(es@)),
{
    reveal(Expr::view);
    reveal(Stmt::view);
    match Stmt::Print(es).view() {
        StmtV::Print(a) => {
            assert(a =~= exprs_view(es@));
        },
        _ => {},
    }
}


// ---------------------------------------------------------------------
// The parser
// ---------------------------------------------------------------------

/// Why parsing stopped: an error to report, or a token sequence the parser
/// cannot continue from at all.
pub enum Halt {
    Error(ParserError),
    GiveUp,
}

/// `r`, the outcome of a parsing step of the parser that was `old` and is
/// now `new`, agrees with the specified outcome `s`, the values taken by `f`.
pub open spec fn agrees<T, V>(r: Result<T, Halt>, f: spec_fn(T) -> V, old: Parser, new: Parser, s: Parsed<V>) -> bool {
    &&& new.token_seq() == old.token_seq()
    &&& match s {
        Parsed::Done(v, c, vs) => r matches Ok(x) && f(x) == v && new.position() == old.position() + c
            && new.declared() == vs,
        Parsed::Failed(e, c, vs) => r matches Err(Halt::Error(x)) && x.view() == e && new.position()
            == old.position() + c && new.declared() == vs,
        Parsed::Stuck => r matches Err(Halt::GiveUp),
    }
}

/// The type of a literal: the narrowest of `u8`, `u16`, `u32` or `uint` for
/// an unsigned literal, of `i8`, `i16`, `i32` or `int` for a signed one;
/// `bool` for a boolean. Defined for literals of these three kinds only.
pub open spec fn infer_type_spec(e: ExprV) -> Type {
    match e {
        ExprV::UIntLiteral(v) => if v <= 0xff {
            Type::U8
        } else if v <= 0xffff {
            Type::U16
        } else if v <= 0xffff_ffff {
            Type::U32
        } else {
            Type::UInt
        },
        ExprV::IntLiteral(v) => if -0x80 <= v <= 0x7f {
            Type::I8
        } else if -0x8000 <= v <= 0x7fff {
            Type::I16
        } else if -0x8000_0000 <= v <= 0x7fff_ffff {
            Type::I32
        } else {
            Type::Int
        },
        _ => Type::Bool,
    }
}

pub fn infer_type_from_expr(expr: &Expr) -> (r: Type)
    requires
        expr.view() is UIntLiteral || expr.view() is IntLiteral || expr.view() is BoolLiteral,
    ensures
        r == infer_type_spec(expr.view()),
{
    proof {
        reveal(Expr::view);
    }
    match expr {
        Expr::UIntLiteral(v) => {
            if *v <= 0xff {
                Type::U8
            } else if *v <= 0xffff {
                Type::U16
            } else if *v <= 0xffff_ffff {
                Type::U32
            } else {
                Type::UInt
            }
        },
        Expr::IntLiteral(v) => {
            if *v >= -0x80 && *v <= 0x7f {
                Type::I8
            } else if *v >= -0x8000 && *v <= 0x7fff {
                Type::I16
            } else if *v >= -0x8000_0000 && *v <= 0x7fff_ffff {
                Type::I32
            } else {
                Type::Int
            }
        },
        _ => Type::Bool,
    }
}

impl ParserError {
    pub fn kind(&self) -> (r: ParserErrorKind)
        ensures
            r == self.view().kind,
    {
        self.kind
    }

    pub fn line(&self) -> (r: usize)
        ensures
            r == self.view().line,
    {
        self.line
    }

    pub fn column(&self) -> (r: usize)
        ensures
            r == self.view().column,
    {
        self.column
    }

    pub fn message(&self) -> (r: &ParserMessage)
        ensures
            message_view(*r) == self.view().message,
    {
        &self.error
    }
}

impl Parser {
    pub closed spec fn token_seq(&self) -> Seq<Token> {
        self.tokens@
    }

    pub closed spec fn position(&self) -> int {
        self.pos as int
    }

    /// The names of the variables declared so far.
    #[verifier::opaque]
    pub closed spec fn declared(&self) -> Set<Seq<char>> {
        Set::new(|n: Seq<char>| exists|i: int| 0 <= i < self.variables@.len() && #[trigger] self.variables@[i]@ == n)
    }

    /// The tokens end with `EOF` and the position is on a token.
    pub closed spec fn wf(&self) -> bool {
        &&& self.tokens@.len() > 0
        &&& self.tokens@.last().kind == TokenKind::EOF
        &&& self.pos < self.tokens@.len()
    }

    pub fn new(tokens: Vec<Token>) -> (r: Self)
        ensures
            r.token_seq() == tokens@,
            r.position() == 0,
            r.declared() == Set::<Seq<char>>::empty(),
            tokens@.len() > 0 && tokens@.last().kind == TokenKind::EOF ==> r.wf(),
    {
        let r = Self { tokens, pos: 0, variables: Vec::new() };
        reveal(Parser::declared);
        assert(r.declared() =~= Set::<Seq<char>>::empty());
        r
    }

    pub fn peek(&self) -> (r: &Token)
        requires
            self.wf(),
        ensures
            *r == self.token_seq()[self.position()],
    {
        &self.tokens[self.pos]
    }

    fn peek_is(&self, k: TokenKind) -> (r: bool)
        requires
            self.wf(),
            is_plain(k),
        ensures
            r == (kind_at(self.token_seq(), self.position()) == Some(k)),
    {
        self.tokens[self.pos].kind.is(&k)
    }

    fn advance(&mut self)
        requires
            old(self).wf(),
            old(self).token_seq()[old(self).position()].kind != TokenKind::EOF,
        ensures
            final(self).wf(),
            final(self).token_seq() == old(self).token_seq(),
            final(self).position() == old(self).position() + 1,
            final(self).declared() == old(self).declared(),
    {
        assert(self.pos + 1 < self.tokens.len());
        self.pos = self.pos + 1;
        proof {
            reveal(Parser::declared);
        }
    }

    fn error(&self, kind: ParserErrorKind, message: ParserMessage) -> (r: ParserError)
        requires
            self.wf(),
        ensures
            r.view() == err_at(self.token_seq(), self.position(), kind, message_view(message)),
    {
        let t = &self.tokens[self.pos];
        ParserError { kind, column: t.span.column, line: t.span.line, error: message }
    }

    fn has_var(&self, name: &String) -> (r: bool)
        ensures
            r == self.declared().contains(name@),
    {
        reveal(Parser::declared);
        let mut i: usize = 0;
        while i < self.variables.len()
            invariant
                i <= self.variables@.len(),
                forall|j: int| 0 <= j < i ==> self.variables@[j]@ != name@,
            decreases self.variables.len() - i,
        {
            if self.variables[i] == *name {
                assert(self.variables@[i as int]@ == name@);
                proof {
                    reveal(Parser::declared);
                }
                return true;
            }
            i += 1;
        }
        proof {
            reveal(Parser::declared);
        }
        false
    }

    fn add_var(&mut self, name: String)
        ensures
            final(self).declared() == old(self).declared().insert(name@),
            final(self).tokens == old(self).tokens,
            final(self).pos == old(self).pos,
    {
        let ghost n = name@;
        reveal(Parser::declared);
        self.variables.push(name);
        assert(self.declared() =~= old(self).declared().insert(n)) by {
            assert(self.variables@[self.variables@.len() - 1]@ == n);
            assert forall|m: Seq<char>| old(self).declared().contains(m) implies self.declared().contains(m) by {
                let i = choose|i: int| 0 <= i < old(self).variables@.len() && #[trigger] old(self).variables@[i]@ == m;
                assert(self.variables@[i]@ == m);
            }
        }
    }

    fn expect(&mut self, kind: TokenKind) -> (r: Result<(), Halt>)
        requires
            old(self).wf(),
            is_plain(kind),
            kind != TokenKind::EOF,
        ensures
            final(self).wf(),
            agrees(r, |u: ()| u, *old(self), *final(self), expect_spec(old(self).token_seq(), old(self).position(), old(self).declared(), kind)),
    {
        if self.peek_is(kind.duplicate()) {
            self.advance();
            Ok(())
        } else {
            let found = self.tokens[self.pos].kind.duplicate();
            Err(Halt::Error(self.error(ParserErrorKind::ExpectedTokenNotFound, ParserMessage::Expected(kind, found))))
        }
    }

    fn expect_ident(&mut self) -> (r: Result<String, Halt>)
        requires
            old(self).wf(),
        ensures
            final(self).wf(),
            agrees(r, |s: String| s, *old(self), *final(self), expect_ident_spec(old(self).token_seq(), old(self).position(), old(self).declared())),
    {
        let k = self.tokens[self.pos].kind.duplicate();
        match k {
            TokenKind::Ident(name) => {
                self.advance();
                Ok(name)
            },
            _ => Err(Halt::Error(self.error(ParserErrorKind::ExpectedIdentifierNotFound, ParserMessage::ExpectedIdentifier(k)))),
        }
    }

    fn parse_type(&mut self) -> (r: Result<Type, Halt>)
        requires
            old(self).wf(),
        ensures
            final(self).wf(),
            final(self).position() >= old(self).position(),
            agrees(r, |t: Type| t, *old(self), *final(self), parse_type_spec(old(self).token_seq(), old(self).position(), old(self).declared())),
        decreases old(self).token_seq().len() - old(self).position(),
    {
        let k = self.tokens[self.pos].kind.duplicate();
        let t = match k {
            TokenKind::Str => Type::Str,
            TokenKind::UInt8 => Type::U8,
            TokenKind::UInt16 => Type::U16,
            TokenKind::UInt32 => Type::U32,
            TokenKind::UInt64 => Type::U64,
            TokenKind::UInt128 => Type::U128,
            TokenKind::Int8 => Type::I8,
            TokenKind::Int16 => Type::I16,
            TokenKind::Int32 => Type::I32,
            TokenKind::Int64 => Type::I64,
            TokenKind::Int128 => Type::I128,
            TokenKind::Int => Type::Int,
            TokenKind::UInt => Type::UInt,
            TokenKind::Bool => Type::Bool,
            TokenKind::Void => Type::Void,
            TokenKind::Vec => {
                self.advance();
                self.expect(TokenKind::Less)?;
                let inner = self.parse_type()?;
                self.expect(TokenKind::Comma)?;
                let size = match self.tokens[self.pos].kind {
                    TokenKind::IntLiteral(n) => {
                        self.advance();
                        n as usize
                    },
                    _ => {
                        return Err(Halt::GiveUp);
                    },
                };
                self.expect(TokenKind::Greater)?;
                return Ok(Type::Vec { inner: Box::new(inner), size });
            },
            _ => {
                return Err(Halt::GiveUp);
            },
        };
        self.advance();
        Ok(t)
    }

    fn parse_identity(&mut self) -> (r: Result<Expr, Halt>)
        requires
            old(self).wf(),
        ensures
            final(self).wf(),
            final(self).position() >= old(self).position(),
            agrees(r, |e: Expr| e.view(), *old(self), *final(self), parse_identity_spec(old(self).token_seq(), old(self).position(), old(self).declared())),
            r is Ok ==> final(self).position() > old(self).position(),
        decreases old(self).token_seq().len() - old(self).position(), 0nat,
    {
        proof {
            reveal(Expr::view);
        }
        self.expect(TokenKind::Indentity)?;
        let negated = if self.peek_is(TokenKind::Not) {
            self.advance();
            true
        } else {
            false
        };
        let e = self.parse_unary()?;
        Ok(Expr::Identity { expr: Box::new(e), negated })
    }

    fn parse_primary(&mut self) -> (r: Result<Expr, Halt>)
        requires
            old(self).wf(),
        ensures
            final(self).wf(),
            final(self).position() >= old(self).position(),
            agrees(r, |e: Expr| e.view(), *old(self), *final(self), parse_primary_spec(old(self).token_seq(), old(self).position(), old(self).declared())),
            r is Ok ==> final(self).position() > old(self).position(),
        decreases old(self).token_seq().len() - old(self).position(), 1nat,
    {
        proof {
            reveal(Expr::view);
        }
        let k = self.tokens[self.pos].kind.duplicate();
        match k {
            TokenKind::Indentity => self.parse_identity(),
            TokenKind::UIntLiteral(v) => {
                self.advance();
                if v > u64::MAX as u128 {
                    Ok(Expr::U128Literal(v))
                } else {
                    Ok(Expr::UIntLiteral(v as u64))
                }
            },
            TokenKind::IntLiteral(v) => {
                self.advance();
                if v > i64::MAX as i128 {
                    Ok(Expr::I128Literal(v))
                } else {
                    Ok(Expr::IntLiteral(v as i64))
                }
            },
            TokenKind::NegIntLiteral(v) => {
                self.advance();
                if v < i64::MIN as i128 {
                    Ok(Expr::I128Literal(v))
                } else {
                    Ok(Expr::IntLiteral(v as i64))
                }
            },
            TokenKind::BoolLiteral(v) => {
                self.advance();
                Ok(Expr::BoolLiteral(v))
            },
            TokenKind::StringLiteral(v) => {
                self.advance();
                Ok(Expr::StringLiteral(v))
            },
            TokenKind::Ident(name) => {
                self.advance();
                if self.peek_is(TokenKind::LeftParen) {
                    self.advance();
                    let acc0: Vec<Expr> = Vec::new();
                    assert(exprs_view(acc0@) =~= Seq::<ExprV>::empty());
                    let args = self.call_args(acc0)?;
                    self.expect(TokenKind::RightParen)?;
                    proof {
                        lemma_call_view(name, args);
                    }
                    Ok(Expr::Call { name, args })
                } else {
                    Ok(Expr::Ident(name))
                }
            },
            TokenKind::VecLiteral(values) => {
                self.advance();
                let mut es: Vec<Expr> = Vec::new();
                let mut i: usize = 0;
                while i < values.len()
                    invariant
                        i <= values.len(),
                        exprs_view(es@) == Seq::new(i as nat, |j: int| ExprV::IntLiteral(values@[j] as i64)),
                    decreases values.len() - i,
                {
                    let e = Expr::IntLiteral(values[i] as i64);
                    proof {
                        reveal(Expr::view);
                        lemma_exprs_push(es@, e);
                    }
                    es.push(e);
                    i += 1;
                    assert(exprs_view(es@) =~= Seq::new(i as nat, |j: int| ExprV::IntLiteral(values@[j] as i64)));
                }
                let size = values.len();
                proof {
                    lemma_vec_view(es, size);
                }
                Ok(Expr::Vec { values: es, size })
            },
            _ => Err(Halt::Error(self.error(ParserErrorKind::InvalidExpression, ParserMessage::InvalidExpression(k)))),
        }
    }

    fn call_args(&mut self, acc: Vec<Expr>) -> (r: Result<Vec<Expr>, Halt>)
        requires
            old(self).wf(),
        ensures
            final(self).wf(),
            final(self).position() >= old(self).position(),
            agrees(r, |v: Vec<Expr>| exprs_view(v@), *old(self), *final(self), call_args_spec(old(self).token_seq(), old(self).position(), old(self).declared(), exprs_view(acc@))),
        decreases old(self).token_seq().len() - old(self).position(), 12nat,
    {
        if self.peek_is(TokenKind::RightParen) {
            return Ok(acc);
        }
        let e = self.parse_expr()?;
        let mut acc = acc;
        proof {
            lemma_exprs_push(acc@, e);
        }
        acc.push(e);
        if self.peek_is(TokenKind::Comma) {
            self.advance();
            self.call_args(acc)
        } else {
            Ok(acc)
        }
    }

    fn parse_unary(&mut self) -> (r: Result<Expr, Halt>)
        requires
            old(self).wf(),
        ensures
            final(self).wf(),
            final(self).position() >= old(self).position(),
            agrees(r, |e: Expr| e.view(), *old(self), *final(self), parse_unary_spec(old(self).token_seq(), old(self).position(), old(self).declared())),
            r is Ok ==> final(self).position() > old(self).position(),
        decreases old(self).token_seq().len() - old(self).position(), 2nat,
    {
        proof {
            reveal(Expr::view);
        }
        if self.peek_is(TokenKind::Indentity) {
            return self.parse_identity();
        }
        if self.peek_is(TokenKind::Not) {
            self.advance();
            let e = self.parse_unary()?;
            return Ok(Expr::Identity { expr: Box::new(e), negated: true });
        }
        self.parse_primary()
    }

    fn mul_op(&self) -> (r: Option<BinOp>)
        requires
            self.wf(),
        ensures
            r is Some ==> self.token_seq()[self.position()].kind != TokenKind::EOF,
            r == op_at(self.token_seq(), self.position(), mul_ops()),
    {
        proof {
            reveal_with_fuel(is_binop_token, 5);
        }
        if self.peek_is(TokenKind::Star) {
            Some(BinOp::Mul)
        } else if self.peek_is(TokenKind::Slash) {
            Some(BinOp::Div)
        } else if self.peek_is(TokenKind::Percent) {
            Some(BinOp::Percent)
        } else {
            None
        }
    }

    fn add_op(&self) -> (r: Option<BinOp>)
        requires
            self.wf(),
        ensures
            r is Some ==> self.token_seq()[self.position()].kind != TokenKind::EOF,
            r == op_at(self.token_seq(), self.position(), add_ops()),
    {
        proof {
            reveal_with_fuel(is_binop_token, 5);
        }
        if self.peek_is(TokenKind::Plus) {
            Some(BinOp::Add)
        } else if self.peek_is(TokenKind::Minus) {
            Some(BinOp::Sub)
        } else {
            None
        }
    }

    fn cmp_op(&self) -> (r: Option<BinOp>)
        requires
            self.wf(),
        ensures
            r is Some ==> self.token_seq()[self.position()].kind != TokenKind::EOF,
            r == op_at(self.token_seq(), self.position(), cmp_ops()),
    {
        proof {
            reveal_with_fuel(is_binop_token, 5);
        }
        if self.peek_is(TokenKind::GreaterEqual) {
            Some(BinOp::GreaterEqual)
        } else if self.peek_is(TokenKind::Greater) {
            Some(BinOp::Greater)
        } else if self.peek_is(TokenKind::LessEqual) {
            Some(BinOp::LessEqual)
        } else if self.peek_is(TokenKind::Less) {
            Some(BinOp::Less)
        } else {
            None
        }
    }

    fn eq_op(&self) -> (r: Option<BinOp>)
        requires
            self.wf(),
        ensures
            r is Some ==> self.token_seq()[self.position()].kind != TokenKind::EOF,
            r == op_at(self.token_seq(), self.position(), eq_ops()),
    {
        proof {
            reveal_with_fuel(is_binop_token, 5);
        }
        if self.peek_is(TokenKind::DoubleEqual) {
            Some(BinOp::DoubleEqual)
        } else if self.peek_is(TokenKind::NotEqual) {
            Some(BinOp::NotEqual)
        } else if self.peek_is(TokenKind::Indentity) {
            Some(BinOp::IndentityOp)
        } else {
            None
        }
    }

    fn term_rest(&mut self, left: Expr) -> (r: Result<Expr, Halt>)
        requires
            old(self).wf(),
        ensures
            final(self).wf(),
            final(self).position() >= old(self).position(),
            agrees(r, |e: Expr| e.view(), *old(self), *final(self), term_rest_spec(old(self).token_seq(), old(self).position(), old(self).declared(), left.view())),
        decreases old(self).token_seq().len() - old(self).position(), 3nat,
    {
        proof {
            reveal(Expr::view);
        }
        match self.mul_op() {
            Some(op) => {
                self.advance();
                let right = self.parse_unary()?;
                self.term_rest(Expr::BinaryOp { left: Box::new(left), op, right: Box::new(right) })
            },
            None => Ok(left),
        }
    }

    fn parse_term(&mut self) -> (r: Result<Expr, Halt>)
        requires
            old(self).wf(),
        ensures
            final(self).wf(),
            final(self).position() >= old(self).position(),
            agrees(r, |e: Expr| e.view(), *old(self), *final(self), parse_term_spec(old(self).token_seq(), old(self).position(), old(self).declared())),
            r is Ok ==> final(self).position() > old(self).position(),
        decreases old(self).token_seq().len() - old(self).position(), 4nat,
    {
        let e = self.parse_unary()?;
        self.term_rest(e)
    }

    fn add_rest(&mut self, left: Expr) -> (r: Result<Expr, Halt>)
        requires
            old(self).wf(),
        ensures
            final(self).wf(),
            final(self).position() >= old(self).position(),
            agrees(r, |e: Expr| e.view(), *old(self), *final(self), add_rest_spec(old(self).token_seq(), old(self).position(), old(self).declared(), left.view())),
        decreases old(self).token_seq().len() - old(self).position(), 5nat,
    {
        proof {
            reveal(Expr::view);
        }
        match self.add_op() {
            Some(op) => {
                self.advance();
                let right = self.parse_term()?;
                self.add_rest(Expr::BinaryOp { left: Box::new(left), op, right: Box::new(right) })
            },
            None => Ok(left),
        }
    }

    fn parse_addition(&mut self) -> (r: Result<Expr, Halt>)
        requires
            old(self).wf(),
        ensures
            final(self).wf(),
            final(self).position() >= old(self).position(),
            agrees(r, |e: Expr| e.view(), *old(self), *final(self), parse_addition_spec(old(self).token_seq(), old(self).position(), old(self).declared())),
            r is Ok ==> final(self).position() > old(self).position(),
        decreases old(self).token_seq().len() - old(self).position(), 6nat,
    {
        let e = self.parse_term()?;
        self.add_rest(e)
    }

    fn cmp_rest(&mut self, left: Expr) -> (r: Result<Expr, Halt>)
        requires
            old(self).wf(),
        ensures
            final(self).wf(),
            final(self).position() >= old(self).position(),
            agrees(r, |e: Expr| e.view(), *old(self), *final(self), cmp_rest_spec(old(self).token_seq(), old(self).position(), old(self).declared(), left.view())),
        decreases old(self).token_seq().len() - old(self).position(), 7nat,
    {
        proof {
            reveal(Expr::view);
        }
        match self.cmp_op() {
            Some(op) => {
                self.advance();
                let right = self.parse_addition()?;
                self.cmp_rest(Expr::BinaryOp { left: Box::new(left), op, right: Box::new(right) })
            },
            None => Ok(left),
        }
    }

    fn parse_comparison(&mut self) -> (r: Result<Expr, Halt>)
        requires
            old(self).wf(),
        ensures
            final(self).wf(),
            final(self).position() >= old(self).position(),
            agrees(r, |e: Expr| e.view(), *old(self), *final(self), parse_comparison_spec(old(self).token_seq(), old(self).position(), old(self).declared())),
            r is Ok ==> final(self).position() > old(self).position(),
        decreases old(self).token_seq().len() - old(self).position(), 8nat,
    {
        let e = self.parse_addition()?;
        self.cmp_rest(e)
    }

    fn eq_rest(&mut self, left: Expr) -> (r: Result<Expr, Halt>)
        requires
            old(self).wf(),
        ensures
            final(self).wf(),
            final(self).position() >= old(self).position(),
            agrees(r, |e: Expr| e.view(), *old(self), *final(self), eq_rest_spec(old(self).token_seq(), old(self).position(), old(self).declared(), left.view())),
        decreases old(self).token_seq().len() - old(self).position(), 9nat,
    {
        proof {
            reveal(Expr::view);
        }
        match self.eq_op() {
            Some(op) => {
                self.advance();
                let right = self.parse_comparison()?;
                self.eq_rest(Expr::BinaryOp { left: Box::new(left), op, right: Box::new(right) })
            },
            None => Ok(left),
        }
    }

    fn parse_equality(&mut self) -> (r: Result<Expr, Halt>)
        requires
            old(self).wf(),
        ensures
            final(self).wf(),
            final(self).position() >= old(self).position(),
            agrees(r, |e: Expr| e.view(), *old(self), *final(self), parse_equality_spec(old(self).token_seq(), old(self).position(), old(self).declared())),
            r is Ok ==> final(self).position() > old(self).position(),
        decreases old(self).token_seq().len() - old(self).position(), 10nat,
    {
        let e = self.parse_comparison()?;
        self.eq_rest(e)
    }

    fn parse_expr(&mut self) -> (r: Result<Expr, Halt>)
        requires
            old(self).wf(),
        ensures
            final(self).wf(),
            final(self).position() >= old(self).position(),
            agrees(r, |e: Expr| e.view(), *old(self), *final(self), parse_expr_spec(old(self).token_seq(), old(self).position(), old(self).declared())),
            r is Ok ==> final(self).position() > old(self).position(),
        decreases old(self).token_seq().len() - old(self).position(), 11nat,
    {
        self.parse_equality()
    }


    fn parse_block(&mut self) -> (r: Result<Vec<Stmt>, Halt>)
        requires
            old(self).wf(),
        ensures
            final(self).wf(),
            final(self).position() >= old(self).position(),
            agrees(r, |v: Vec<Stmt>| stmts_view(v@), *old(self), *final(self), parse_block_spec(old(self).token_seq(), old(self).position(), old(self).declared())),
            r is Ok ==> final(self).position() > old(self).position(),
        decreases old(self).token_seq().len() - old(self).position(), 4nat,
    {
        let acc0: Vec<Stmt> = Vec::new();
        assert(stmts_view(acc0@) =~= Seq::<StmtV>::empty());
        let b = self.block_items(acc0)?;
        self.expect(TokenKind::RightBrace)?;
        Ok(b)
    }

    fn block_items(&mut self, acc: Vec<Stmt>) -> (r: Result<Vec<Stmt>, Halt>)
        requires
            old(self).wf(),
        ensures
            final(self).wf(),
            final(self).position() >= old(self).position(),
            agrees(r, |v: Vec<Stmt>| stmts_view(v@), *old(self), *final(self), block_items_spec(old(self).token_seq(), old(self).position(), old(self).declared(), stmts_view(acc@))),
        decreases old(self).token_seq().len() - old(self).position(), 3nat,
    {
        if self.peek_is(TokenKind::RightBrace) || self.peek_is(TokenKind::EOF) {
            return Ok(acc);
        }
        let st = self.parse_statement()?;
        let mut acc = acc;
        proof {
            lemma_stmts_push(acc@, st);
        }
        acc.push(st);
        self.block_items(acc)
    }

    fn parse_statement(&mut self) -> (r: Result<Stmt, Halt>)
        requires
            old(self).wf(),
        ensures
            final(self).wf(),
            final(self).position() >= old(self).position(),
            agrees(r, |s: Stmt| s.view(), *old(self), *final(self), parse_statement_spec(old(self).token_seq(), old(self).position(), old(self).declared())),
            r is Ok ==> final(self).position() > old(self).position(),
        decreases old(self).token_seq().len() - old(self).position(), 2nat,
    {
        let k = self.tokens[self.pos].kind.duplicate();
        match k {
            TokenKind::Fun => self.parse_funcdecl(),
            TokenKind::Var | TokenKind::Const => self.parse_var_decl(),
            TokenKind::If => self.parse_if(),
            TokenKind::For => self.parse_for(),
            TokenKind::When => self.parse_when(),
            TokenKind::Loop => self.parse_loop(),
            TokenKind::While => self.parse_while(),
            TokenKind::Print => self.parse_print(),
            TokenKind::Return => {
                self.advance();
                let value = self.parse_expr()?;
                self.expect(TokenKind::Semicolon)?;
                proof {
                    lemma_simple_stmt_views(arbitrary(), Type::Int, value, Mutability::Const, BinOp::Add);
                }
                Ok(Stmt::Return(value))
            },
            TokenKind::Break => {
                self.advance();
                self.expect(TokenKind::Semicolon)?;
                proof {
                    lemma_simple_stmt_views(arbitrary(), Type::Int, arbitrary(), Mutability::Const, BinOp::Add);
                }
                Ok(Stmt::Break)
            },
            TokenKind::Continue => {
                self.advance();
                self.expect(TokenKind::Semicolon)?;
                proof {
                    lemma_simple_stmt_views(arbitrary(), Type::Int, arbitrary(), Mutability::Const, BinOp::Add);
                }
                Ok(Stmt::Continue)
            },
            TokenKind::Ident(_) => self.parse_assignment_or_compound(),
            _ => Err(Halt::GiveUp),
        }
    }

    fn parse_assignment_or_compound(&mut self) -> (r: Result<Stmt, Halt>)
        requires
            old(self).wf(),
        ensures
            final(self).wf(),
            final(self).position() >= old(self).position(),
            agrees(r, |s: Stmt| s.view(), *old(self), *final(self), parse_assignment_spec(old(self).token_seq(), old(self).position(), old(self).declared())),
            r is Ok ==> final(self).position() > old(self).position(),
        decreases old(self).token_seq().len() - old(self).position(), 1nat,
    {
        let name = self.expect_ident()?;
        let op = if self.peek_is(TokenKind::CompoundAdd) {
            Some(BinOp::CompoundAdd)
        } else if self.peek_is(TokenKind::CompoundSub) {
            Some(BinOp::CompoundSub)
        } else if self.peek_is(TokenKind::CompoundMul) {
            Some(BinOp::CompoundMul)
        } else if self.peek_is(TokenKind::CompoundDiv) {
            Some(BinOp::CompoundDiv)
        } else {
            None
        };
        if self.peek_is(TokenKind::Equal) || op.is_some() {
            self.advance();
            self.assign_rest(name, op)
        } else {
            Err(Halt::Error(self.error(ParserErrorKind::InvalidExpression, ParserMessage::UnexpectedAfterIdent)))
        }
    }

    fn assign_rest(&mut self, name: String, op: Option<BinOp>) -> (r: Result<Stmt, Halt>)
        requires
            old(self).wf(),
        ensures
            final(self).wf(),
            final(self).position() >= old(self).position(),
            agrees(r, |s: Stmt| s.view(), *old(self), *final(self), assign_rest_spec(old(self).token_seq(), old(self).position(), old(self).declared(), name, op)),
            r is Ok ==> final(self).position() > old(self).position(),
    {
        let value = self.parse_expr()?;
        self.expect(TokenKind::Semicolon)?;
        proof {
            lemma_simple_stmt_views(name, Type::Int, value, Mutability::Const, match op { Some(o) => o, None => BinOp::Add });
        }
        match op {
            Some(o) => Ok(Stmt::CompoundAssign { target: name, op: o, value }),
            None => Ok(Stmt::Assignment(Assignment { target: name, value })),
        }
    }

    fn parse_print(&mut self) -> (r: Result<Stmt, Halt>)
        requires
            old(self).wf(),
        ensures
            final(self).wf(),
            final(self).position() >= old(self).position(),
            agrees(r, |s: Stmt| s.view(), *old(self), *final(self), parse_print_spec(old(self).token_seq(), old(self).position(), old(self).declared())),
            r is Ok ==> final(self).position() > old(self).position(),
        decreases old(self).token_seq().len() - old(self).position(), 1nat,
    {
        self.expect(TokenKind::Print)?;
        self.expect(TokenKind::LeftParen)?;
        let acc0: Vec<Expr> = Vec::new();
        assert(exprs_view(acc0@) =~= Seq::<ExprV>::empty());
        let items = self.print_items(acc0)?;
        self.print_tail(items)
    }

    fn print_tail(&mut self, items: Vec<Expr>) -> (r: Result<Stmt, Halt>)
        requires
            old(self).wf(),
        ensures
            final(self).wf(),
            final(self).position() >= old(self).position(),
            agrees(r, |s: Stmt| s.view(), *old(self), *final(self), print_tail_spec(old(self).token_seq(), old(self).position(), old(self).declared(), exprs_view(items@))),
            r is Ok ==> final(self).position() > old(self).position(),
    {
        self.expect(TokenKind::RightParen)?;
        self.expect(TokenKind::Semicolon)?;
        proof {
            lemma_print_view(items);
        }
        Ok(Stmt::Print(items))
    }

    fn print_items(&mut self, acc: Vec<Expr>) -> (r: Result<Vec<Expr>, Halt>)
        requires
            old(self).wf(),
        ensures
            final(self).wf(),
            final(self).position() >= old(self).position(),
            agrees(r, |v: Vec<Expr>| exprs_view(v@), *old(self), *final(self), print_items_spec(old(self).token_seq(), old(self).position(), old(self).declared(), exprs_view(acc@))),
        decreases old(self).token_seq().len() - old(self).position(),
    {
        if self.peek_is(TokenKind::RightParen) || self.peek_is(TokenKind::EOF) {
            return Ok(acc);
        }
        if self.peek_is(TokenKind::Comma) {
            self.advance();
            return self.print_items(acc);
        }
        let e = self.parse_expr()?;
        let mut acc = acc;
        proof {
            lemma_exprs_push(acc@, e);
        }
        acc.push(e);
        self.print_items(acc)
    }

    fn parse_loop(&mut self) -> (r: Result<Stmt, Halt>)
        requires
            old(self).wf(),
        ensures
            final(self).wf(),
            final(self).position() >= old(self).position(),
            agrees(r, |s: Stmt| s.view(), *old(self), *final(self), parse_loop_spec(old(self).token_seq(), old(self).position(), old(self).declared())),
            r is Ok ==> final(self).position() > old(self).position(),
        decreases old(self).token_seq().len() - old(self).position(), 1nat,
    {
        self.expect(TokenKind::Loop)?;
        self.expect(TokenKind::LeftBrace)?;
        let body = self.parse_block()?;
        let l = Loop { body };
        proof {
            lemma_loop_view(l);
        }
        Ok(Stmt::Loop(l))
    }

    fn parse_while(&mut self) -> (r: Result<Stmt, Halt>)
        requires
            old(self).wf(),
        ensures
            final(self).wf(),
            final(self).position() >= old(self).position(),
            agrees(r, |s: Stmt| s.view(), *old(self), *final(self), parse_while_spec(old(self).token_seq(), old(self).position(), old(self).declared())),
            r is Ok ==> final(self).position() > old(self).position(),
        decreases old(self).token_seq().len() - old(self).position(), 1nat,
    {
        self.expect(TokenKind::While)?;
        self.expect(TokenKind::LeftParen)?;
        let cond = self.parse_expr()?;
        self.while_tail(cond)
    }

    fn while_tail(&mut self, cond: Expr) -> (r: Result<Stmt, Halt>)
        requires
            old(self).wf(),
        ensures
            final(self).wf(),
            final(self).position() >= old(self).position(),
            agrees(r, |s: Stmt| s.view(), *old(self), *final(self), while_tail_spec(old(self).token_seq(), old(self).position(), old(self).declared(), cond.view())),
            r is Ok ==> final(self).position() > old(self).position(),
        decreases old(self).token_seq().len() - old(self).position(), 0nat,
    {
        self.expect(TokenKind::RightParen)?;
        self.expect(TokenKind::LeftBrace)?;
        let body = self.parse_block()?;
        let w = WhileLoop { cond, body };
        proof {
            lemma_while_view(w);
        }
        Ok(Stmt::WhileLoop(w))
    }

    fn parse_for(&mut self) -> (r: Result<Stmt, Halt>)
        requires
            old(self).wf(),
        ensures
            final(self).wf(),
            final(self).position() >= old(self).position(),
            agrees(r, |s: Stmt| s.view(), *old(self), *final(self), parse_for_spec(old(self).token_seq(), old(self).position(), old(self).declared())),
            r is Ok ==> final(self).position() > old(self).position(),
        decreases old(self).token_seq().len() - old(self).position(), 1nat,
    {
        self.expect(TokenKind::For)?;
        let var = self.expect_ident()?;
        self.expect(TokenKind::In)?;
        self.for_start(var)
    }

    fn for_start(&mut self, var: String) -> (r: Result<Stmt, Halt>)
        requires
            old(self).wf(),
        ensures
            final(self).wf(),
            final(self).position() >= old(self).position(),
            agrees(r, |s: Stmt| s.view(), *old(self), *final(self), for_start_spec(old(self).token_seq(), old(self).position(), old(self).declared(), var)),
            r is Ok ==> final(self).position() > old(self).position(),
        decreases old(self).token_seq().len() - old(self).position(), 0nat,
    {
        let start = self.parse_expr()?;
        self.expect(TokenKind::Range)?;
        let next = self.parse_expr()?;
        self.for_range(var, start, next)
    }

    fn for_range(&mut self, var: String, start: Expr, next: Expr) -> (r: Result<Stmt, Halt>)
        requires
            old(self).wf(),
        ensures
            final(self).wf(),
            final(self).position() >= old(self).position(),
            agrees(r, |s: Stmt| s.view(), *old(self), *final(self), for_range_spec(old(self).token_seq(), old(self).position(), old(self).declared(), var, start.view(), next.view())),
        decreases old(self).token_seq().len() - old(self).position(), 1nat,
    {
        if self.peek_is(TokenKind::Range) {
            self.advance();
            let end = self.parse_expr()?;
            self.for_tail(var, start, Some(next), end)
        } else {
            self.for_tail(var, start, None, next)
        }
    }

    fn for_tail(&mut self, var: String, start: Expr, step: Option<Expr>, end: Expr) -> (r: Result<Stmt, Halt>)
        requires
            old(self).wf(),
        ensures
            final(self).wf(),
            final(self).position() >= old(self).position(),
            agrees(r, |s: Stmt| s.view(), *old(self), *final(self), for_tail_spec(old(self).token_seq(), old(self).position(), old(self).declared(), var, start.view(), opt_expr_view(step), end.view())),
            r is Ok ==> final(self).position() > old(self).position(),
        decreases old(self).token_seq().len() - old(self).position(), 0nat,
    {
        self.expect(TokenKind::LeftBrace)?;
        let body = self.parse_block()?;
        let f = ForLoop { var, start, step, end, body };
        proof {
            lemma_for_view(f);
        }
        Ok(Stmt::ForLoop(f))
    }

    fn parse_when(&mut self) -> (r: Result<Stmt, Halt>)
        requires
            old(self).wf(),
        ensures
            final(self).wf(),
            final(self).position() >= old(self).position(),
            agrees(r, |s: Stmt| s.view(), *old(self), *final(self), parse_when_spec(old(self).token_seq(), old(self).position(), old(self).declared())),
            r is Ok ==> final(self).position() > old(self).position(),
        decreases old(self).token_seq().len() - old(self).position(), 1nat,
    {
        self.expect(TokenKind::When)?;
        let condition = self.parse_expr()?;
        self.when_open(condition)
    }

    fn when_open(&mut self, condition: Expr) -> (r: Result<Stmt, Halt>)
        requires
            old(self).wf(),
        ensures
            final(self).wf(),
            final(self).position() >= old(self).position(),
            agrees(r, |s: Stmt| s.view(), *old(self), *final(self), when_open_spec(old(self).token_seq(), old(self).position(), old(self).declared(), condition.view())),
        decreases old(self).token_seq().len() - old(self).position(), 0nat,
    {
        self.expect(TokenKind::LeftBrace)?;
        self.when_body(condition)
    }

    fn when_body(&mut self, condition: Expr) -> (r: Result<Stmt, Halt>)
        requires
            old(self).wf(),
        ensures
            final(self).wf(),
            final(self).position() >= old(self).position(),
            agrees(r, |s: Stmt| s.view(), *old(self), *final(self), when_body_spec(old(self).token_seq(), old(self).position(), old(self).declared(), condition.view())),
        decreases old(self).token_seq().len() - old(self).position(), 14nat,
    {
        let acc0: Vec<(Expr, Vec<Stmt>)> = Vec::new();
        assert(arms_view(acc0@) =~= Seq::<(ExprV, Seq<StmtV>)>::empty());
        let (arms, else_arm) = self.when_arms(acc0)?;
        self.expect(TokenKind::RightBrace)?;
        let w = WhenStatement { condition, arms, else_arm };
        proof {
            lemma_when_view(w);
        }
        Ok(Stmt::WhenStatement(w))
    }

    fn when_arms(&mut self, acc: Vec<(Expr, Vec<Stmt>)>) -> (r: Result<(Vec<(Expr, Vec<Stmt>)>, Option<Vec<Stmt>>), Halt>)
        requires
            old(self).wf(),
        ensures
            final(self).wf(),
            final(self).position() >= old(self).position(),
            agrees(r, |a: (Vec<(Expr, Vec<Stmt>)>, Option<Vec<Stmt>>)| (arms_view(a.0@), opt_block_view(a.1)), *old(self), *final(self), when_arms_spec(old(self).token_seq(), old(self).position(), old(self).declared(), arms_view(acc@))),
        decreases old(self).token_seq().len() - old(self).position(), 13nat,
    {
        if self.peek_is(TokenKind::RightBrace) || self.peek_is(TokenKind::EOF) {
            return Ok((acc, None));
        }
        if self.peek_is(TokenKind::Else) {
            self.advance();
            self.expect(TokenKind::FatArrow)?;
            let block = self.parse_block()?;
            return Ok((acc, Some(block)));
        }
        let value = self.parse_expr()?;
        self.when_arm(acc, value)
    }

    fn when_arm(&mut self, acc: Vec<(Expr, Vec<Stmt>)>, value: Expr) -> (r: Result<(Vec<(Expr, Vec<Stmt>)>, Option<Vec<Stmt>>), Halt>)
        requires
            old(self).wf(),
        ensures
            final(self).wf(),
            final(self).position() >= old(self).position(),
            agrees(r, |a: (Vec<(Expr, Vec<Stmt>)>, Option<Vec<Stmt>>)| (arms_view(a.0@), opt_block_view(a.1)), *old(self), *final(self), when_arm_spec(old(self).token_seq(), old(self).position(), old(self).declared(), arms_view(acc@), value.view())),
        decreases old(self).token_seq().len() - old(self).position(), 12nat,
    {
        self.expect(TokenKind::FatArrow)?;
        let block = self.parse_block()?;
        let mut acc = acc;
        proof {
            lemma_arms_push(acc@, (value, block));
        }
        acc.push((value, block));
        self.when_arms(acc)
    }

    fn parse_if(&mut self) -> (r: Result<Stmt, Halt>)
        requires
            old(self).wf(),
        ensures
            final(self).wf(),
            final(self).position() >= old(self).position(),
            agrees(r, |s: Stmt| s.view(), *old(self), *final(self), parse_if_spec(old(self).token_seq(), old(self).position(), old(self).declared())),
            r is Ok ==> final(self).position() > old(self).position(),
        decreases old(self).token_seq().len() - old(self).position(), 1nat,
    {
        self.expect(TokenKind::If)?;
        self.expect(TokenKind::LeftParen)?;
        let condition = self.parse_expr()?;
        self.if_cond(condition)
    }

    fn if_cond(&mut self, condition: Expr) -> (r: Result<Stmt, Halt>)
        requires
            old(self).wf(),
        ensures
            final(self).wf(),
            final(self).position() >= old(self).position(),
            agrees(r, |s: Stmt| s.view(), *old(self), *final(self), if_cond_spec(old(self).token_seq(), old(self).position(), old(self).declared(), condition.view())),
            r is Ok ==> final(self).position() > old(self).position(),
        decreases old(self).token_seq().len() - old(self).position(), 0nat,
    {
        self.expect(TokenKind::RightParen)?;
        self.expect(TokenKind::LeftBrace)?;
        let then_branch = self.parse_block()?;
        self.if_else(condition, then_branch)
    }

    fn if_else(&mut self, condition: Expr, then_branch: Vec<Stmt>) -> (r: Result<Stmt, Halt>)
        requires
            old(self).wf(),
        ensures
            final(self).wf(),
            final(self).position() >= old(self).position(),
            agrees(r, |s: Stmt| s.view(), *old(self), *final(self), if_else_spec(old(self).token_seq(), old(self).position(), old(self).declared(), condition.view(), stmts_view(then_branch@))),
        decreases old(self).token_seq().len() - old(self).position(), 0nat,
    {
        let mut else_branch = None;
        if self.peek_is(TokenKind::Else) {
            self.advance();
            if self.peek_is(TokenKind::If) {
                let inner = self.parse_if()?;
                let b = vec![inner];
                assert(stmts_view(b@) =~= seq![inner.view()]);
                else_branch = Some(b);
            } else {
                self.expect(TokenKind::LeftBrace)?;
                let b = self.parse_block()?;
                else_branch = Some(b);
            }
        }
        let s = IfStatement { condition, then_branch, else_branch };
        proof {
            lemma_if_view(s);
        }
        Ok(Stmt::IfStatement(s))
    }

    fn parse_params(&mut self) -> (r: Result<Vec<(Type, String)>, Halt>)
        requires
            old(self).wf(),
        ensures
            final(self).wf(),
            final(self).position() >= old(self).position(),
            agrees(r, |v: Vec<(Type, String)>| v@, *old(self), *final(self), parse_params_spec(old(self).token_seq(), old(self).position(), old(self).declared())),
    {
        self.expect(TokenKind::LeftParen)?;
        if self.peek_is(TokenKind::RightParen) {
            self.advance();
            let none: Vec<(Type, String)> = Vec::new();
            assert(none@ =~= Seq::<(Type, String)>::empty());
            return Ok(none);
        }
        let acc0: Vec<(Type, String)> = Vec::new();
        assert(acc0@ =~= Seq::<(Type, String)>::empty());
        let ps = self.params_list(acc0)?;
        self.expect(TokenKind::RightParen)?;
        Ok(ps)
    }

    fn params_list(&mut self, acc: Vec<(Type, String)>) -> (r: Result<Vec<(Type, String)>, Halt>)
        requires
            old(self).wf(),
        ensures
            final(self).wf(),
            final(self).position() >= old(self).position(),
            agrees(r, |v: Vec<(Type, String)>| v@, *old(self), *final(self), params_list_spec(old(self).token_seq(), old(self).position(), old(self).declared(), acc@)),
        decreases old(self).token_seq().len() - old(self).position(),
    {
        let ty = self.parse_type()?;
        let name = self.expect_ident()?;
        let mut acc = acc;
        acc.push((ty, name));
        if self.peek_is(TokenKind::Comma) {
            self.advance();
            self.params_list(acc)
        } else {
            Ok(acc)
        }
    }

    #[verifier::spinoff_prover]
    #[verifier::rlimit(40)]
    fn parse_funcdecl(&mut self) -> (r: Result<Stmt, Halt>)
        requires
            old(self).wf(),
        ensures
            final(self).wf(),
            final(self).position() >= old(self).position(),
            agrees(r, |s: Stmt| s.view(), *old(self), *final(self), parse_funcdecl_spec(old(self).token_seq(), old(self).position(), old(self).declared())),
            r is Ok ==> final(self).position() > old(self).position(),
        decreases old(self).token_seq().len() - old(self).position(), 1nat,
    {
        self.expect(TokenKind::Fun)?;
        let ret = self.parse_type()?;
        let name = self.expect_ident()?;
        self.func_rest(ret, name)
    }

    fn func_rest(&mut self, ret: Type, name: String) -> (r: Result<Stmt, Halt>)
        requires
            old(self).wf(),
        ensures
            final(self).wf(),
            final(self).position() >= old(self).position(),
            agrees(r, |s: Stmt| s.view(), *old(self), *final(self), func_rest_spec(old(self).token_seq(), old(self).position(), old(self).declared(), ret, name)),
            r is Ok ==> final(self).position() > old(self).position(),
        decreases old(self).token_seq().len() - old(self).position(), 0nat,
    {
        let params = self.parse_params()?;
        self.expect(TokenKind::LeftBrace)?;
        let body = self.parse_block()?;
        let f = FuncDecl { name, params, return_type: Some(ret), body };
        proof {
            lemma_func_view(f);
        }
        Ok(Stmt::FuncDecl(f))
    }

    #[verifier::spinoff_prover]
    #[verifier::rlimit(40)]
    fn parse_var_decl(&mut self) -> (r: Result<Stmt, Halt>)
        requires
            old(self).wf(),
        ensures
            final(self).wf(),
            final(self).position() >= old(self).position(),
            agrees(r, |s: Stmt| s.view(), *old(self), *final(self), parse_var_decl_spec(old(self).token_seq(), old(self).position(), old(self).declared())),
            r is Ok ==> final(self).position() > old(self).position(),
        decreases old(self).token_seq().len() - old(self).position(), 1nat,
    {
        let mutability = if self.peek_is(TokenKind::Const) {
            self.advance();
            Mutability::Const
        } else {
            self.expect(TokenKind::Var)?;
            Mutability::Mutable
        };
        let untyped = match &self.tokens[self.pos].kind {
            TokenKind::Ident(_) => true,
            _ => false,
        };
        if untyped {
            let name = self.expect_ident()?;
            return self.var_infer_rest(mutability, name);
        }
        self.var_typed(mutability)
    }

    fn var_typed(&mut self, mutability: Mutability) -> (r: Result<Stmt, Halt>)
        requires
            old(self).wf(),
        ensures
            final(self).wf(),
            final(self).position() >= old(self).position(),
            agrees(r, |s: Stmt| s.view(), *old(self), *final(self), var_typed_spec(old(self).token_seq(), old(self).position(), old(self).declared(), mutability)),
            r is Ok ==> final(self).position() > old(self).position(),
    {
        let ty = self.parse_type()?;
        let name = self.expect_ident()?;
        self.var_rest(mutability, ty, name)
    }

    fn var_infer_rest(&mut self, mutability: Mutability, name: String) -> (r: Result<Stmt, Halt>)
        requires
            old(self).wf(),
        ensures
            final(self).wf(),
            final(self).position() >= old(self).position(),
            agrees(r, |s: Stmt| s.view(), *old(self), *final(self), var_infer_rest_spec(old(self).token_seq(), old(self).position(), old(self).declared(), mutability, name)),
            r is Ok ==> final(self).position() > old(self).position(),
    {
        self.expect(TokenKind::Equal)?;
        let not_inferable = self.error(ParserErrorKind::InvalidVariableDecl, ParserMessage::CannotInferType(name.clone()));
        let value = self.parse_expr()?;
        proof {
            reveal(Expr::view);
        }
        let ok = match &value {
            Expr::UIntLiteral(_) | Expr::IntLiteral(_) | Expr::BoolLiteral(_) => true,
            _ => false,
        };
        if !ok {
            return Err(Halt::Error(not_inferable));
        }
        let ty = infer_type_from_expr(&value);
        self.var_tail(mutability, ty, name, value)
    }

    fn var_rest(&mut self, mutability: Mutability, ty: Type, name: String) -> (r: Result<Stmt, Halt>)
        requires
            old(self).wf(),
        ensures
            final(self).wf(),
            final(self).position() >= old(self).position(),
            agrees(r, |s: Stmt| s.view(), *old(self), *final(self), var_rest_spec(old(self).token_seq(), old(self).position(), old(self).declared(), mutability, ty, name)),
            r is Ok ==> final(self).position() > old(self).position(),
    {
        self.expect(TokenKind::Equal)?;
        let value = self.parse_expr()?;
        self.var_tail(mutability, ty, name, value)
    }

    fn var_tail(&mut self, mutability: Mutability, ty: Type, name: String, value: Expr) -> (r: Result<Stmt, Halt>)
        requires
            old(self).wf(),
        ensures
            final(self).wf(),
            final(self).position() >= old(self).position(),
            agrees(r, |s: Stmt| s.view(), *old(self), *final(self), var_tail_spec(old(self).token_seq(), old(self).position(), old(self).declared(), mutability, ty, name, value.view())),
            r is Ok ==> final(self).position() > old(self).position(),
    {
        self.expect(TokenKind::Semicolon)?;
        if self.has_var(&name) {
            return Err(Halt::Error(self.error(ParserErrorKind::DuplicateVariableError, ParserMessage::AlreadyDeclared(name))));
        }
        self.add_var(name.clone());
        proof {
            lemma_simple_stmt_views(name, ty, value, mutability, BinOp::Add);
        }
        Ok(Stmt::VarDecl(VarDecl { name, ty, value, mutability }))
    }

    fn next_statement(&mut self) -> (r: Result<Stmt, Halt>)
        requires
            old(self).wf(),
        ensures
            final(self).wf(),
            final(self).position() >= old(self).position(),
            agrees(r, |s: Stmt| s.view(), *old(self), *final(self), statement_outcome(old(self).token_seq(), old(self).position(), old(self).declared())),
            r is Ok ==> final(self).position() > old(self).position(),
    {
        let r = self.parse_statement();
        proof {
            reveal(statement_outcome);
        }
        r
    }

    /// Skips to just past the next token at which a statement may end or
    /// begin (or to the end of input).
    fn synchronize(&mut self)
        requires
            old(self).wf(),
        ensures
            final(self).wf(),
            final(self).token_seq() == old(self).token_seq(),
            final(self).declared() == old(self).declared(),
            final(self).position() == sync_stop(old(self).token_seq(), old(self).position()),
    {
        let ghost ts = self.token_seq();
        let ghost p0 = self.position();
        loop
            invariant
                self.wf(),
                self.token_seq() == ts,
                self.declared() == old(self).declared(),
                ts == old(self).token_seq(),
                p0 == old(self).position(),
                sync_stop(ts, p0) == sync_stop(ts, self.position()),
            decreases ts.len() - self.position(),
        {
            if self.peek_is(TokenKind::EOF) {
                return;
            }
            if self.peek_is(TokenKind::Semicolon) || self.peek_is(TokenKind::RightBrace) || self.peek_is(
                TokenKind::Fun,
            ) || self.peek_is(TokenKind::Var) || self.peek_is(TokenKind::If) || self.peek_is(TokenKind::For)
                || self.peek_is(TokenKind::Return) {
                self.advance();
                return;
            }
            self.advance();
        }
    }

    /// Parses the statements from the current position to the end of input,
    /// recovering after each error; `None` where the parser cannot go on
    /// from the token before it.
    pub fn try_parse(&mut self) -> (r: Option<ParseResult>)
        requires
            old(self).wf(),
        ensures
            final(self).wf(),
            final(self).token_seq() == old(self).token_seq(),
            r is Some <==> parse_all_spec(old(self).token_seq(), old(self).position(), old(self).declared(), seq![], seq![]) is Some,
            r matches Some(res) ==> {
                let (ss, es) = parse_all_spec(old(self).token_seq(), old(self).position(), old(self).declared(), seq![], seq![]).unwrap();
                &&& stmts_view(res.stmts@) == ss
                &&& errs_view(res.errors@) == es
                &&& res.success == (res.errors@.len() == 0)
            },
    {
        let ghost ts = self.token_seq();
        let ghost goal = parse_all_spec(ts, self.position(), self.declared(), seq![], seq![]);
        let mut stmts: Vec<Stmt> = Vec::new();
        let mut errors: Vec<ParserError> = Vec::new();
        assert(stmts_view(stmts@) =~= Seq::<StmtV>::empty());
        assert(errs_view(errors@) =~= Seq::<PErr>::empty());
        while !self.peek_is(TokenKind::EOF)
            invariant
                self.wf(),
                self.token_seq() == ts,
                ts == old(self).token_seq(),
                goal == parse_all_spec(ts, old(self).position(), old(self).declared(), seq![], seq![]),
                goal == parse_all_spec(ts, self.position(), self.declared(), stmts_view(stmts@), errs_view(errors@)),
            decreases ts.len() - self.position(),
        {
            let ghost before = *self;
            match self.next_statement() {
                Ok(st) => {
                    proof {
                        lemma_stmts_push(stmts@, st);
                    }
                    stmts.push(st);
                },
                Err(Halt::Error(e)) => {
                    proof {
                        lemma_errs_push(errors@, e);
                    }
                    errors.push(e);
                    let ghost mid = self.position();
                    self.synchronize();
                    proof {
                        lemma_sync_stop(ts, mid);
                        lemma_sync_stop(ts, before.position());
                    }
                },
                Err(Halt::GiveUp) => {
                    return None;
                },
            }
        }
        let success = errors.len() == 0;
        Some(ParseResult { stmts, errors, success })
    }

    /// Parses the statements from the current position to the end of input,
    /// recovering after each error.
    pub fn parse(&mut self) -> (r: ParseResult)
        requires
            old(self).wf(),
            parse_all_spec(old(self).token_seq(), old(self).position(), old(self).declared(), seq![], seq![]) is Some,
        ensures
            final(self).wf(),
            ({
                let (ss, es) = parse_all_spec(old(self).token_seq(), old(self).position(), old(self).declared(), seq![], seq![]).unwrap();
                &&& stmts_view(r.stmts@) == ss
                &&& errs_view(r.errors@) == es
                &&& r.success == (r.errors@.len() == 0)
            }),
    {
        match self.try_parse() {
            Some(res) => res,
            None => {
                proof {
                    assert(false);
                }
                ParseResult { stmts: Vec::new(), errors: Vec::new(), success: true }
            },
        }
    }
}

} // verus!
