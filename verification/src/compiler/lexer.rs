//! Turns the lines of a Corvo7 source file into tokens.
//!
//! Reading the file and printing the errors are left to the caller; what is
//! here decides, for every line, which tokens and which errors it yields.
use vstd::prelude::*;
use crate::compiler::text::{
    chars_eq_str, chars_of, digits_value, is_alpha, is_digit, is_whitespace, is_word_char, push_char,
    spec_is_alpha, spec_is_digit, spec_is_whitespace, spec_is_word_char, string_from_chars,
};

verus! {

broadcast use vstd::string::group_string_axioms;

#[derive(Debug, Clone)]
pub enum TokenKind {
    // keywords
    Fun,
    Var,
    Const,
    Return,
    Cmhr,
    Cmho,
    Print,
    If,
    Else,
    This,
    For,
    In,
    Range,
    Break,
    Continue,
    When,
    While,
    Loop,
    As,
    // types
    UInt8,
    UInt16,
    UInt32,
    UInt64,
    UInt128,
    Int,
    UInt,
    Int8,
    Int16,
    Int32,
    Int64,
    Int128,
    Vec,
    Bool,
    Void,
    Str,
    // literals
    IntLiteral(i128),
    NegIntLiteral(i128),
    UIntLiteral(u128),
    BoolLiteral(bool),
    StringLiteral(String),
    InnerType(String),
    VecLiteral(Vec<i128>),
    // ident
    Ident(String),
    // operators
    Plus,
    Minus,
    Star,
    Slash,
    Percent,
    Equal,
    DoubleEqual,
    NotEqual,
    FatArrow,
    Less,
    LessEqual,
    Greater,
    Indentity,
    GreaterEqual,
    CompoundAdd,
    CompoundSub,
    CompoundMul,
    CompoundDiv,
    And,
    Or,
    Not,
    // separators
    Comma,
    Semicolon,
    Colon,
    Arrow,
    Dot,
    LeftParen,
    RightParen,
    LeftBrace,
    RightBrace,
    LeftBracket,
    RightBracket,
    // end of file
    EOF,
}

#[derive(Debug, Clone, Copy, PartialEq, Eq, Structural)]
pub enum LexerErrorKind {
    InvalidChar(char),
    InvalidNumericSuffix,
    NegativeNumWithUSuffix,
    UnterminatedString,
}

#[derive(Debug, Clone, Copy, PartialEq, Eq, Structural)]
pub struct Span {
    pub line: usize,
    pub column: usize,
}

#[derive(Debug, Clone, Copy, PartialEq, Eq, Structural)]
pub struct LexerError {
    pub kind: LexerErrorKind,
    pub span: Span,
}

#[derive(Debug)]
pub struct LexerErrors(pub Vec<LexerError>);

#[derive(Debug, Clone)]
pub struct Token {
    pub kind: TokenKind,
    pub span: Span,
}

/// A token kind as a mathematical value: the text and the numbers that the
/// kind carries are taken by their views.
pub enum KindView {
    Plain(TokenKind),
    Ident(Seq<char>),
    Text(Seq<char>),
    Inner(Seq<char>),
    Numbers(Seq<i128>),
}

pub open spec fn kind_view(k: TokenKind) -> KindView {
    match k {
        TokenKind::Ident(s) => KindView::Ident(s@),
        TokenKind::StringLiteral(s) => KindView::Text(s@),
        TokenKind::InnerType(s) => KindView::Inner(s@),
        TokenKind::VecLiteral(v) => KindView::Numbers(v@),
        _ => KindView::Plain(k),
    }
}

pub open spec fn token_view(t: Token) -> (KindView, Span) {
    (kind_view(t.kind), t.span)
}

pub open spec fn tokens_view(ts: Seq<Token>) -> Seq<(KindView, Span)> {
    ts.map_values(|t: Token| token_view(t))
}

/// What one step of the line scanner produces.
pub enum Lexeme<K> {
    /// A character skipped (white space).
    Blank,
    Tok(K),
    Fault(LexerErrorKind),
    /// A vector literal element that does not fit in an `i128`: the
    /// scanner gives up (the value cannot be represented).
    TooLarge,
}

pub open spec fn lexeme_view(l: Lexeme<TokenKind>) -> Lexeme<KindView> {
    match l {
        Lexeme::Blank => Lexeme::Blank,
        Lexeme::Tok(k) => Lexeme::Tok(kind_view(k)),
        Lexeme::Fault(e) => Lexeme::Fault(e),
        Lexeme::TooLarge => Lexeme::TooLarge,
    }
}

// ---------------------------------------------------------------------
// Specification of the scanner
// ---------------------------------------------------------------------

pub open spec fn char_at(line: Seq<char>, i: int) -> Option<char> {
    if 0 <= i < line.len() { Some(line[i]) } else { None }
}

/// End of the run of digits that starts at `i`.
pub open spec fn digit_end(line: Seq<char>, i: int) -> int
    decreases line.len() - i,
{
    if 0 <= i < line.len() && spec_is_digit(line[i]) {
        digit_end(line, i + 1)
    } else {
        i
    }
}

/// End of the run of identifier characters that starts at `i`.
pub open spec fn word_end(line: Seq<char>, i: int) -> int
    decreases line.len() - i,
{
    if 0 <= i < line.len() && spec_is_word_char(line[i]) {
        word_end(line, i + 1)
    } else {
        i
    }
}

/// Index of the first `"` at or after `i`.
pub open spec fn quote_index(line: Seq<char>, i: int) -> Option<int>
    decreases line.len() - i,
{
    if 0 <= i < line.len() {
        if line[i] == '"' { Some(i) } else { quote_index(line, i + 1) }
    } else {
        None
    }
}

/// The keyword spelled by `w`, if any.
pub open spec fn keyword(w: Seq<char>) -> Option<TokenKind> {
    if w == "fun"@ { Some(TokenKind::Fun) }
    else if w == "const"@ { Some(TokenKind::Const) }
    else if w == "var"@ { Some(TokenKind::Var) }
    else if w == "cmho"@ { Some(TokenKind::Cmho) }
    else if w == "cmhr"@ { Some(TokenKind::Cmhr) }
    else if w == "return"@ { Some(TokenKind::Return) }
    else if w == "if"@ { Some(TokenKind::If) }
    else if w == "else"@ { Some(TokenKind::Else) }
    else if w == "for"@ { Some(TokenKind::For) }
    else if w == "while"@ { Some(TokenKind::While) }
    else if w == "break"@ { Some(TokenKind::Break) }
    else if w == "continue"@ { Some(TokenKind::Continue) }
    else if w == "in"@ { Some(TokenKind::In) }
    else if w == "loop"@ { Some(TokenKind::Loop) }
    else if w == "when"@ { Some(TokenKind::When) }
    else if w == "as"@ { Some(TokenKind::As) }
    else if w == "print"@ { Some(TokenKind::Print) }
    else if w == "true"@ { Some(TokenKind::BoolLiteral(true)) }
    else if w == "false"@ { Some(TokenKind::BoolLiteral(false)) }
    else if w == "this"@ { Some(TokenKind::This) }
    else if w == "bool"@ { Some(TokenKind::Bool) }
    else if w == "int"@ { Some(TokenKind::Int) }
    else if w == "Vec"@ { Some(TokenKind::Vec) }
    else if w == "u8"@ { Some(TokenKind::UInt8) }
    else if w == "u16"@ { Some(TokenKind::UInt16) }
    else if w == "u32"@ { Some(TokenKind::UInt32) }
    else if w == "string"@ { Some(TokenKind::Str) }
    else if w == "u64"@ { Some(TokenKind::UInt64) }
    else if w == "u128"@ { Some(TokenKind::UInt128) }
    else if w == "i8"@ { Some(TokenKind::Int8) }
    else if w == "i16"@ { Some(TokenKind::Int16) }
    else if w == "i32"@ { Some(TokenKind::Int32) }
    else if w == "i64"@ { Some(TokenKind::Int64) }
    else if w == "uint"@ { Some(TokenKind::UInt) }
    else if w == "i128"@ { Some(TokenKind::Int128) }
    else if w == "void"@ { Some(TokenKind::Void) }
    else { None }
}

/// The signed value of a literal: the magnitude read as a two's complement
/// `i128` (as the release build converts it), negated when a `-` preceded it.
pub open spec fn signed_value(v: u128, negative: bool) -> i128 {
    let s = v as i128;
    if negative {
        if s == i128::MIN { i128::MIN } else { (-s) as i128 }
    } else {
        s
    }
}

/// A number literal starting at `pos` (a digit, or a `-` followed by a digit).
/// Returns the lexeme, the position after it and the column after it.
pub open spec fn lex_number_spec(line: Seq<char>, pos: int, col: int) -> (Lexeme<KindView>, int, int) {
    let negative = line[pos] == '-';
    let ds = if negative { pos + 1 } else { pos };
    let de = digit_end(line, ds);
    let dcol = col + (de - pos);
    let v = digits_value(line.subrange(ds, de));
    if v > u128::MAX {
        (Lexeme::Fault(LexerErrorKind::InvalidChar('?')), de, dcol)
    } else if char_at(line, de) == Some('u') {
        if char_at(line, de + 1) matches Some(c) && spec_is_word_char(c) {
            (Lexeme::Fault(LexerErrorKind::InvalidNumericSuffix), de + 1, dcol)
        } else if negative {
            (Lexeme::Fault(LexerErrorKind::NegativeNumWithUSuffix), de + 1, dcol)
        } else {
            (Lexeme::Tok(KindView::Plain(TokenKind::UIntLiteral(v as u128))), de + 1, dcol + 1)
        }
    } else {
        let s = signed_value(v as u128, negative);
        let k = if negative { TokenKind::NegIntLiteral(s) } else { TokenKind::IntLiteral(s) };
        (Lexeme::Tok(KindView::Plain(k)), de, dcol)
    }
}

/// Scans the inside of a vector literal from `i`: `cur` holds the digits of
/// the element being read, `vals` the elements read so far. Digits collect
/// (blanks and tabs are skipped), `,` and `]` close the element in progress,
/// `]` also ends the literal, and any other character or the end of the line
/// stops the scan (the element in progress is then dropped). Returns the
/// elements, the position and column where the scan stopped, and whether an
/// element did not fit in an `i128`.
pub open spec fn vec_scan(line: Seq<char>, i: int, col: int, cur: Seq<char>, vals: Seq<i128>) -> (
    Seq<i128>,
    int,
    int,
    bool,
)
    decreases line.len() - i,
{
    if !(0 <= i < line.len()) {
        (vals, i, col, false)
    } else {
        let c = line[i];
        if spec_is_digit(c) {
            vec_scan(line, i + 1, col + 1, cur.push(c), vals)
        } else if c == ',' {
            if cur.len() > 0 {
                if digits_value(cur) > i128::MAX {
                    (vals, i, col, true)
                } else {
                    vec_scan(line, i + 1, col + 1, seq![], vals.push(digits_value(cur) as i128))
                }
            } else {
                vec_scan(line, i + 1, col + 1, cur, vals)
            }
        } else if c == ']' {
            if cur.len() > 0 {
                if digits_value(cur) > i128::MAX {
                    (vals, i, col, true)
                } else {
                    (vals.push(digits_value(cur) as i128), i + 1, col + 1, false)
                }
            } else {
                (vals, i + 1, col + 1, false)
            }
        } else if c == ' ' || c == '\t' {
            vec_scan(line, i + 1, col + 1, cur, vals)
        } else {
            (vals, i, col, false)
        }
    }
}

pub open spec fn lex_vec_spec(line: Seq<char>, pos: int, col: int) -> (Lexeme<KindView>, int, int) {
    let r = vec_scan(line, pos + 1, col + 1, seq![], seq![]);
    if r.3 {
        (Lexeme::TooLarge, r.1, r.2)
    } else {
        (Lexeme::Tok(KindView::Numbers(r.0)), r.1, r.2)
    }
}

pub open spec fn lex_word_spec(line: Seq<char>, pos: int, col: int) -> (Lexeme<KindView>, int, int) {
    let e = word_end(line, pos);
    let w = line.subrange(pos, e);
    let k = match keyword(w) {
        Some(k) => KindView::Plain(k),
        None => KindView::Ident(w),
    };
    (Lexeme::Tok(k), e, col + (e - pos))
}

pub open spec fn lex_string_spec(line: Seq<char>, pos: int, col: int) -> (Lexeme<KindView>, int, int) {
    match quote_index(line, pos + 1) {
        Some(q) => (Lexeme::Tok(KindView::Text(line.subrange(pos + 1, q))), q + 1, col + (q + 1 - pos)),
        None => (Lexeme::Fault(LexerErrorKind::UnterminatedString), line.len() as int, col + (
        line.len() - pos)),
    }
}

/// A one- or two-character operator: `second` is the kind when the next
/// character is `next`, `single` the kind otherwise.
pub open spec fn pair_or(line: Seq<char>, pos: int, col: int, next: char, second: TokenKind, single: TokenKind) -> (Lexeme<KindView>, int, int) {
    if char_at(line, pos + 1) == Some(next) {
        (Lexeme::Tok(KindView::Plain(second)), pos + 2, col + 2)
    } else {
        (Lexeme::Tok(KindView::Plain(single)), pos + 1, col + 1)
    }
}

pub open spec fn one(pos: int, col: int, k: TokenKind) -> (Lexeme<KindView>, int, int) {
    (Lexeme::Tok(KindView::Plain(k)), pos + 1, col + 1)
}

pub open spec fn lex_operator_spec(line: Seq<char>, pos: int, col: int) -> (Lexeme<KindView>, int, int) {
    let c = line[pos];
    let n = char_at(line, pos + 1);
    if c == '+' {
        pair_or(line, pos, col, '=', TokenKind::CompoundAdd, TokenKind::Plus)
    } else if c == '-' {
        if n == Some('>') {
            (Lexeme::Tok(KindView::Plain(TokenKind::Arrow)), pos + 2, col + 2)
        } else {
            pair_or(line, pos, col, '=', TokenKind::CompoundSub, TokenKind::Minus)
        }
    } else if c == '*' {
        pair_or(line, pos, col, '=', TokenKind::CompoundMul, TokenKind::Star)
    } else if c == '/' {
        pair_or(line, pos, col, '=', TokenKind::CompoundDiv, TokenKind::Slash)
    } else if c == '%' {
        one(pos, col, TokenKind::Percent)
    } else if c == '=' {
        if n == Some('=') {
            (Lexeme::Tok(KindView::Plain(TokenKind::DoubleEqual)), pos + 2, col + 2)
        } else {
            pair_or(line, pos, col, '>', TokenKind::FatArrow, TokenKind::Equal)
        }
    } else if c == '.' {
        pair_or(line, pos, col, '.', TokenKind::Range, TokenKind::Dot)
    } else if c == ':' {
        if n == Some('=') {
            if char_at(line, pos + 2) == Some(':') {
                (Lexeme::Tok(KindView::Plain(TokenKind::Indentity)), pos + 3, col + 3)
            } else {
                (Lexeme::Fault(LexerErrorKind::InvalidChar(':')), pos + 2, col + 2)
            }
        } else {
            one(pos, col, TokenKind::Colon)
        }
    } else if c == ';' {
        one(pos, col, TokenKind::Semicolon)
    } else if c == '|' {
        if n == Some('|') {
            (Lexeme::Tok(KindView::Plain(TokenKind::Or)), pos + 2, col + 2)
        } else {
            (Lexeme::Fault(LexerErrorKind::InvalidChar('|')), pos + 1, col + 1)
        }
    } else if c == '&' {
        if n == Some('&') {
            (Lexeme::Tok(KindView::Plain(TokenKind::And)), pos + 2, col + 2)
        } else {
            (Lexeme::Fault(LexerErrorKind::InvalidChar('&')), pos + 1, col + 1)
        }
    } else if c == '!' {
        pair_or(line, pos, col, '=', TokenKind::NotEqual, TokenKind::Not)
    } else if c == ',' {
        one(pos, col, TokenKind::Comma)
    } else if c == '<' {
        pair_or(line, pos, col, '=', TokenKind::LessEqual, TokenKind::Less)
    } else if c == '>' {
        pair_or(line, pos, col, '=', TokenKind::GreaterEqual, TokenKind::Greater)
    } else if c == '{' {
        one(pos, col, TokenKind::LeftBrace)
    } else if c == '}' {
        one(pos, col, TokenKind::RightBrace)
    } else if c == '(' {
        one(pos, col, TokenKind::LeftParen)
    } else if c == ')' {
        one(pos, col, TokenKind::RightParen)
    } else if c == '[' {
        one(pos, col, TokenKind::LeftBracket)
    } else if c == ']' {
        one(pos, col, TokenKind::RightBracket)
    } else {
        (Lexeme::Fault(LexerErrorKind::InvalidChar(c)), pos + 1, col + 1)
    }
}

/// One step of the scanner at `pos` (which is inside the line), chosen by
/// the character there.
pub open spec fn lex_step_spec(line: Seq<char>, pos: int, col: int) -> (Lexeme<KindView>, int, int) {
    let c = line[pos];
    if spec_is_whitespace(c) {
        (Lexeme::Blank, pos + 1, col + 1)
    } else if c == '[' {
        lex_vec_spec(line, pos, col)
    } else if spec_is_digit(c) {
        lex_number_spec(line, pos, col)
    } else if c == '-' {
        if char_at(line, pos + 1) matches Some(d) && spec_is_digit(d) {
            lex_number_spec(line, pos, col)
        } else {
            lex_operator_spec(line, pos, col)
        }
    } else if spec_is_alpha(c) || c == '_' {
        lex_word_spec(line, pos, col)
    } else if c == '"' {
        lex_string_spec(line, pos, col)
    } else {
        lex_operator_spec(line, pos, col)
    }
}

// ---------------------------------------------------------------------
// Every step consumes input, never more than the line, and moves the
// column no further than the position.
// ---------------------------------------------------------------------

pub proof fn lemma_digit_end(line: Seq<char>, i: int)
    requires
        0 <= i <= line.len(),
    ensures
        i <= digit_end(line, i) <= line.len(),
        forall|j: int| i <= j < digit_end(line, i) ==> spec_is_digit(#[trigger] line[j]),
        digit_end(line, i) < line.len() ==> !spec_is_digit(line[digit_end(line, i)]),
    decreases line.len() - i,
{
    if i < line.len() && spec_is_digit(line[i]) {
        lemma_digit_end(line, i + 1);
    }
}

pub proof fn lemma_word_end(line: Seq<char>, i: int)
    requires
        0 <= i <= line.len(),
    ensures
        i <= word_end(line, i) <= line.len(),
        forall|j: int| i <= j < word_end(line, i) ==> spec_is_word_char(#[trigger] line[j]),
        word_end(line, i) < line.len() ==> !spec_is_word_char(line[word_end(line, i)]),
    decreases line.len() - i,
{
    if i < line.len() && spec_is_word_char(line[i]) {
        lemma_word_end(line, i + 1);
    }
}

pub proof fn lemma_quote_index(line: Seq<char>, i: int)
    requires
        0 <= i <= line.len(),
    ensures
        quote_index(line, i) matches Some(q) ==> (i <= q < line.len() && line[q] == '"' && forall|
            j: int,
        | i <= j < q ==> #[trigger] line[j] != '"'),
        quote_index(line, i) is None ==> forall|j: int| i <= j < line.len() ==> #[trigger] line[j]
            != '"',
    decreases line.len() - i,
{
    if i < line.len() && line[i] != '"' {
        lemma_quote_index(line, i + 1);
    }
}

pub proof fn lemma_vec_scan(line: Seq<char>, i: int, col: int, cur: Seq<char>, vals: Seq<i128>)
    requires
        0 <= i <= line.len(),
    ensures
        i <= vec_scan(line, i, col, cur, vals).1 <= line.len(),
        vec_scan(line, i, col, cur, vals).2 - col == vec_scan(line, i, col, cur, vals).1 - i,
    decreases line.len() - i,
{
    if i < line.len() {
        let c = line[i];
        if spec_is_digit(c) {
            lemma_vec_scan(line, i + 1, col + 1, cur.push(c), vals);
        } else if c == ',' {
            if cur.len() > 0 {
                if digits_value(cur) <= i128::MAX {
                    lemma_vec_scan(line, i + 1, col + 1, seq![], vals.push(digits_value(cur) as i128));
                }
            } else {
                lemma_vec_scan(line, i + 1, col + 1, cur, vals);
            }
        } else if c == ' ' || c == '\t' {
            lemma_vec_scan(line, i + 1, col + 1, cur, vals);
        }
    }
}

pub proof fn lemma_step_bounds(line: Seq<char>, pos: int, col: int)
    requires
        0 <= pos < line.len(),
    ensures
        pos < lex_step_spec(line, pos, col).1 <= line.len(),
        lex_step_spec(line, pos, col).2 - col <= lex_step_spec(line, pos, col).1 - pos,
        col <= lex_step_spec(line, pos, col).2,
{
    let c = line[pos];
    if spec_is_whitespace(c) {
    } else if c == '[' {
        lemma_vec_scan(line, pos + 1, col + 1, seq![], seq![]);
    } else if spec_is_digit(c) || c == '-' {
        lemma_digit_end(line, pos);
        if pos + 1 <= line.len() {
            lemma_digit_end(line, pos + 1);
        }
    } else if spec_is_alpha(c) || c == '_' {
        lemma_word_end(line, pos);
    } else if c == '"' {
        lemma_quote_index(line, pos + 1);
    }
}

/// Tokens, errors and the give-up flag of a line scanned from `pos`, where
/// the column is `col`. After an error the scanner skips one more character.
pub open spec fn lex_line_from(line: Seq<char>, line_no: usize, pos: int, col: int) -> (
    Seq<(KindView, Span)>,
    Seq<LexerError>,
    bool,
)
    decreases line.len() - pos,
{
    if !(0 <= pos < line.len()) {
        (seq![], seq![], false)
    } else {
        let st = lex_step_spec(line, pos, col);
        proof {
            lemma_step_bounds(line, pos, col);
        }
        {
            match st.0 {
                Lexeme::TooLarge => (seq![], seq![], true),
                Lexeme::Blank => lex_line_from(line, line_no, st.1, st.2),
                Lexeme::Tok(k) => {
                    let r = lex_line_from(line, line_no, st.1, st.2);
                    (seq![(k, Span { line: line_no, column: #[verifier::truncate] (col as usize) })] + r.0, r.1, r.2)
                },
                Lexeme::Fault(e) => {
                    let p = if st.1 < line.len() { st.1 + 1 } else { st.1 };
                    let r = lex_line_from(line, line_no, p, st.2 + 1);
                    (r.0, seq![LexerError { kind: e, span: Span { line: line_no, column: #[verifier::truncate] (col as usize) } }] + r.1, r.2)
                },
            }
        }
    }
}

pub open spec fn lex_line_spec(line: Seq<char>, line_no: usize) -> (
    Seq<(KindView, Span)>,
    Seq<LexerError>,
    bool,
) {
    lex_line_from(line, line_no, 0, 1)
}

/// Tokens, errors and give-up flag of all the lines, line numbers from 1.
pub open spec fn lex_lines_spec(lines: Seq<Seq<char>>) -> (
    Seq<(KindView, Span)>,
    Seq<LexerError>,
    bool,
)
    decreases lines.len(),
{
    if lines.len() == 0 {
        (seq![], seq![], false)
    } else {
        let r = lex_lines_spec(lines.drop_last());
        let l = lex_line_spec(lines.last(), lines.len() as usize);
        (r.0 + l.0, r.1 + l.1, r.2 || l.2)
    }
}

/// Lines are scanned independently: scanning one more line appends its
/// tokens and errors to those of the lines before it, numbered as the next
/// line.
pub proof fn law_lines_scan_independently(lines: Seq<Seq<char>>, l: Seq<char>)
    ensures
        ({
            let before = lex_lines_spec(lines);
            let line = lex_line_spec(l, (lines.len() + 1) as usize);
            lex_lines_spec(lines.push(l)) == (before.0 + line.0, before.1 + line.1, before.2 || line.2)
        }),
{
    assert(lines.push(l).drop_last() =~= lines);
}

/// No token of `ts` marks the end of input.
pub open spec fn no_eof(ts: Seq<(KindView, Span)>) -> bool {
    forall|i: int| 0 <= i < ts.len() ==> #[trigger] ts[i].0 != KindView::Plain(TokenKind::EOF)
}

proof fn lemma_step_not_eof(line: Seq<char>, pos: int, col: int)
    requires
        0 <= pos < line.len(),
    ensures
        lex_step_spec(line, pos, col).0 != Lexeme::Tok(KindView::Plain(TokenKind::EOF)),
{
}

proof fn lemma_line_no_eof(line: Seq<char>, line_no: usize, pos: int, col: int)
    ensures
        no_eof(lex_line_from(line, line_no, pos, col).0),
    decreases line.len() - pos,
{
    if 0 <= pos < line.len() {
        let st = lex_step_spec(line, pos, col);
        lemma_step_bounds(line, pos, col);
        lemma_step_not_eof(line, pos, col);
        match st.0 {
            Lexeme::TooLarge => {},
            Lexeme::Blank => {
                lemma_line_no_eof(line, line_no, st.1, st.2);
            },
            Lexeme::Tok(k) => {
                lemma_line_no_eof(line, line_no, st.1, st.2);
                let r = lex_line_from(line, line_no, st.1, st.2);
                let t = seq![(k, Span { line: line_no, column: #[verifier::truncate] (col as usize) })];
                assert forall|i: int| 0 <= i < (t + r.0).len() implies #[trigger] (t + r.0)[i].0 != KindView::Plain(
                    TokenKind::EOF,
                ) by {
                    if i > 0 {
                        assert((t + r.0)[i] == r.0[i - 1]);
                    }
                }
            },
            Lexeme::Fault(e) => {
                let p = if st.1 < line.len() { st.1 + 1 } else { st.1 };
                lemma_line_no_eof(line, line_no, p, st.2 + 1);
            },
        }
    }
}

/// The scanner never makes an end-of-input token itself: the `EOF` that
/// `lex_lines` appends after the tokens of all the lines is the only one,
/// and it comes last.
pub proof fn law_no_eof_before_the_end(lines: Seq<Seq<char>>)
    ensures
        no_eof(lex_lines_spec(lines).0),
    decreases lines.len(),
{
    if lines.len() > 0 {
        law_no_eof_before_the_end(lines.drop_last());
        let r = lex_lines_spec(lines.drop_last());
        let l = lex_line_spec(lines.last(), lines.len() as usize);
        lemma_line_no_eof(lines.last(), lines.len() as usize, 0, 1);
        assert forall|i: int| 0 <= i < (r.0 + l.0).len() implies #[trigger] (r.0 + l.0)[i].0 != KindView::Plain(
            TokenKind::EOF,
        ) by {
            if i >= r.0.len() {
                assert((r.0 + l.0)[i] == l.0[i - r.0.len()]);
            } else {
                assert((r.0 + l.0)[i] == r.0[i]);
            }
        }
    }
}

pub open spec fn lines_view(lines: Seq<String>) -> Seq<Seq<char>> {
    lines.map_values(|l: String| l@)
}

/// The machine limits the scanner needs: columns and line numbers fit.
pub open spec fn lines_fit(lines: Seq<String>) -> bool {
    &&& lines.len() < usize::MAX
    &&& forall|i: int| 0 <= i < lines.len() ==> #[trigger] lines[i]@.len() < usize::MAX / 4
}


// ---------------------------------------------------------------------
// The scanner
// ---------------------------------------------------------------------

fn next_is(cs: &Vec<char>, i: usize, c: char) -> (r: bool)
    ensures
        r == (char_at(cs@, i as int) == Some(c)),
{
    i < cs.len() && cs[i] == c
}

/// Value of the decimal digits `d[from..to]`, or `None` when it exceeds
/// `u128::MAX`.
fn digits_to_u128(d: &Vec<char>, from: usize, to: usize) -> (r: Option<u128>)
    requires
        from <= to <= d.len(),
        forall|j: int| from <= j < to ==> spec_is_digit(#[trigger] d@[j]),
    ensures
        r matches Some(v) ==> v == digits_value(d@.subrange(from as int, to as int)),
        r is None <==> digits_value(d@.subrange(from as int, to as int)) > u128::MAX,
{
    let mut acc: u128 = 0;
    let mut over = false;
    let mut i = from;
    assert(d@.subrange(from as int, from as int) =~= Seq::<char>::empty());
    while i < to
        invariant
            from <= i <= to <= d.len(),
            forall|j: int| from <= j < to ==> spec_is_digit(#[trigger] d@[j]),
            !over ==> acc == digits_value(d@.subrange(from as int, i as int)),
            over ==> digits_value(d@.subrange(from as int, i as int)) > u128::MAX,
        decreases to - i,
    {
        let c = d[i];
        let dv: u32 = (c as u32) - ('0' as u32);
        let ghost prev = d@.subrange(from as int, i as int);
        assert(d@.subrange(from as int, i + 1).drop_last() =~= prev);
        assert(spec_is_digit(d@[i as int]));
        if !over {
            match acc.checked_mul(10) {
                Some(m) => match m.checked_add(dv as u128) {
                    Some(a) => {
                        acc = a;
                    },
                    None => {
                        over = true;
                    },
                },
                None => {
                    over = true;
                },
            }
        }
        i += 1;
    }
    if over {
        None
    } else {
        Some(acc)
    }
}

fn lex_num(cs: &Vec<char>, pos: usize, col: usize) -> (r: (Lexeme<TokenKind>, usize, usize))
    requires
        pos < cs.len(),
        spec_is_digit(cs@[pos as int]) || (cs@[pos as int] == '-' && pos + 1 < cs.len()
            && spec_is_digit(cs@[pos + 1])),
        col + cs.len() < usize::MAX,
    ensures
        (lexeme_view(r.0), r.1 as int, r.2 as int) == lex_number_spec(cs@, pos as int, col as int),
{
    let negative = cs[pos] == '-';
    let ds = if negative { pos + 1 } else { pos };
    let mut de = ds;
    proof {
        lemma_digit_end(cs@, ds as int);
    }
    while de < cs.len() && is_digit(cs[de])
        invariant
            ds <= de <= cs.len(),
            digit_end(cs@, de as int) == digit_end(cs@, ds as int),
            forall|j: int| ds <= j < de ==> spec_is_digit(#[trigger] cs@[j]),
        decreases cs.len() - de,
    {
        de += 1;
    }
    let dcol = col + (de - pos);
    match digits_to_u128(cs, ds, de) {
        None => (Lexeme::Fault(LexerErrorKind::InvalidChar('?')), de, dcol),
        Some(v) => {
            if next_is(cs, de, 'u') {
                if de + 1 < cs.len() && is_word_char(cs[de + 1]) {
                    (Lexeme::Fault(LexerErrorKind::InvalidNumericSuffix), de + 1, dcol)
                } else if negative {
                    (Lexeme::Fault(LexerErrorKind::NegativeNumWithUSuffix), de + 1, dcol)
                } else {
                    (Lexeme::Tok(TokenKind::UIntLiteral(v)), de + 1, dcol + 1)
                }
            } else {
                let s = v as i128;
                let sv = if negative {
                    if s == i128::MIN {
                        i128::MIN
                    } else {
                        -s
                    }
                } else {
                    s
                };
                let k = if negative {
                    TokenKind::NegIntLiteral(sv)
                } else {
                    TokenKind::IntLiteral(sv)
                };
                (Lexeme::Tok(k), de, dcol)
            }
        },
    }
}

fn lex_vec_literal(cs: &Vec<char>, pos: usize, col: usize) -> (r: (Lexeme<TokenKind>, usize, usize))
    requires
        pos < cs.len(),
        col + cs.len() < usize::MAX,
    ensures
        (lexeme_view(r.0), r.1 as int, r.2 as int) == lex_vec_spec(cs@, pos as int, col as int),
{
    let ghost whole = vec_scan(cs@, pos + 1, col + 1, seq![], seq![]);
    let mut i = pos + 1;
    let mut c = col + 1;
    let mut cur: Vec<char> = Vec::new();
    let mut vals: Vec<i128> = Vec::new();
    while i < cs.len()
        invariant
            pos < i <= cs.len(),
            c - col == i - pos,
            col + cs.len() < usize::MAX,
            forall|j: int| 0 <= j < cur.len() ==> spec_is_digit(#[trigger] cur@[j]),
            vec_scan(cs@, i as int, c as int, cur@, vals@) == whole,
            whole == vec_scan(cs@, pos + 1, col + 1, seq![], seq![]),
        decreases cs.len() - i,
    {
        let ch = cs[i];
        if is_digit(ch) {
            cur.push(ch);
            i += 1;
            c += 1;
        } else if ch == ',' {
            if cur.len() > 0 {
                assert(cur@.subrange(0, cur.len() as int) =~= cur@);
                let parsed = digits_to_u128(&cur, 0, cur.len());
                if let Some(v) = parsed {
                    if v <= i128::MAX as u128 {
                        vals.push(v as i128);
                            cur = Vec::new();
                            i += 1;
                            c += 1;
                    } else {
                        assert(digits_value(cur@) > i128::MAX);
                        assert(vec_scan(cs@, i as int, c as int, cur@, vals@).3);
                        return (Lexeme::TooLarge, i, c);
                    }
                } else {
                    return (Lexeme::TooLarge, i, c);
                }
            } else {
                i += 1;
                c += 1;
            }
        } else if ch == ']' {
            if cur.len() > 0 {
                assert(cur@.subrange(0, cur.len() as int) =~= cur@);
                let parsed = digits_to_u128(&cur, 0, cur.len());
                if let Some(v) = parsed {
                    if v <= i128::MAX as u128 {
                        vals.push(v as i128);
                            return (Lexeme::Tok(TokenKind::VecLiteral(vals)), i + 1, c + 1);
                    } else {
                        return (Lexeme::TooLarge, i, c);
                    }
                } else {
                    return (Lexeme::TooLarge, i, c);
                }
            } else {
                return (Lexeme::Tok(TokenKind::VecLiteral(vals)), i + 1, c + 1);
            }
        } else if ch == ' ' || ch == '\t' {
            i += 1;
            c += 1;
        } else {
            return (Lexeme::Tok(TokenKind::VecLiteral(vals)), i, c);
        }
    }
    (Lexeme::Tok(TokenKind::VecLiteral(vals)), i, c)
}

/// The keyword spelled by `w`, if any.
fn keyword_of(w: &Vec<char>) -> (r: Option<TokenKind>)
    ensures
        r == keyword(w@),
{
    if chars_eq_str(w, "fun") { Some(TokenKind::Fun) }
    else if chars_eq_str(w, "const") { Some(TokenKind::Const) }
    else if chars_eq_str(w, "var") { Some(TokenKind::Var) }
    else if chars_eq_str(w, "cmho") { Some(TokenKind::Cmho) }
    else if chars_eq_str(w, "cmhr") { Some(TokenKind::Cmhr) }
    else if chars_eq_str(w, "return") { Some(TokenKind::Return) }
    else if chars_eq_str(w, "if") { Some(TokenKind::If) }
    else if chars_eq_str(w, "else") { Some(TokenKind::Else) }
    else if chars_eq_str(w, "for") { Some(TokenKind::For) }
    else if chars_eq_str(w, "while") { Some(TokenKind::While) }
    else if chars_eq_str(w, "break") { Some(TokenKind::Break) }
    else if chars_eq_str(w, "continue") { Some(TokenKind::Continue) }
    else if chars_eq_str(w, "in") { Some(TokenKind::In) }
    else if chars_eq_str(w, "loop") { Some(TokenKind::Loop) }
    else if chars_eq_str(w, "when") { Some(TokenKind::When) }
    else if chars_eq_str(w, "as") { Some(TokenKind::As) }
    else if chars_eq_str(w, "print") { Some(TokenKind::Print) }
    else if chars_eq_str(w, "true") { Some(TokenKind::BoolLiteral(true)) }
    else if chars_eq_str(w, "false") { Some(TokenKind::BoolLiteral(false)) }
    else if chars_eq_str(w, "this") { Some(TokenKind::This) }
    else if chars_eq_str(w, "bool") { Some(TokenKind::Bool) }
    else if chars_eq_str(w, "int") { Some(TokenKind::Int) }
    else if chars_eq_str(w, "Vec") { Some(TokenKind::Vec) }
    else if chars_eq_str(w, "u8") { Some(TokenKind::UInt8) }
    else if chars_eq_str(w, "u16") { Some(TokenKind::UInt16) }
    else if chars_eq_str(w, "u32") { Some(TokenKind::UInt32) }
    else if chars_eq_str(w, "string") { Some(TokenKind::Str) }
    else if chars_eq_str(w, "u64") { Some(TokenKind::UInt64) }
    else if chars_eq_str(w, "u128") { Some(TokenKind::UInt128) }
    else if chars_eq_str(w, "i8") { Some(TokenKind::Int8) }
    else if chars_eq_str(w, "i16") { Some(TokenKind::Int16) }
    else if chars_eq_str(w, "i32") { Some(TokenKind::Int32) }
    else if chars_eq_str(w, "i64") { Some(TokenKind::Int64) }
    else if chars_eq_str(w, "uint") { Some(TokenKind::UInt) }
    else if chars_eq_str(w, "i128") { Some(TokenKind::Int128) }
    else if chars_eq_str(w, "void") { Some(TokenKind::Void) }
    else { None }
}

fn lex_ident_or_keyword(cs: &Vec<char>, pos: usize, col: usize) -> (r: (Lexeme<TokenKind>, usize, usize))
    requires
        pos < cs.len(),
        col + cs.len() < usize::MAX,
    ensures
        (lexeme_view(r.0), r.1 as int, r.2 as int) == lex_word_spec(cs@, pos as int, col as int),
{
    let mut e = pos;
    let mut w: Vec<char> = Vec::new();
    proof {
        lemma_word_end(cs@, pos as int);
    }
    while e < cs.len() && is_word_char(cs[e])
        invariant
            pos <= e <= cs.len(),
            word_end(cs@, e as int) == word_end(cs@, pos as int),
            w@ == cs@.subrange(pos as int, e as int),
        decreases cs.len() - e,
    {
        w.push(cs[e]);
        e += 1;
        assert(w@ =~= cs@.subrange(pos as int, e as int));
    }
    let k = match keyword_of(&w) {
        Some(k) => k,
        None => TokenKind::Ident(string_from_chars(&w)),
    };
    (Lexeme::Tok(k), e, col + (e - pos))
}

fn lex_str(cs: &Vec<char>, pos: usize, col: usize) -> (r: (Lexeme<TokenKind>, usize, usize))
    requires
        pos < cs.len(),
        col + cs.len() < usize::MAX,
    ensures
        (lexeme_view(r.0), r.1 as int, r.2 as int) == lex_string_spec(cs@, pos as int, col as int),
{
    let mut i = pos + 1;
    let mut text = String::new();
    while i < cs.len()
        invariant
            pos < i <= cs.len(),
            quote_index(cs@, i as int) == quote_index(cs@, pos + 1),
            text@ == cs@.subrange(pos + 1, i as int),
            col + cs.len() < usize::MAX,
        decreases cs.len() - i,
    {
        if cs[i] == '"' {
            return (Lexeme::Tok(TokenKind::StringLiteral(text)), i + 1, col + (i + 1 - pos));
        }
        push_char(&mut text, cs[i]);
        i += 1;
        assert(text@ =~= cs@.subrange(pos + 1, i as int));
    }
    (Lexeme::Fault(LexerErrorKind::UnterminatedString), cs.len(), col + (cs.len() - pos))
}

fn pair_or_exec(
    cs: &Vec<char>,
    pos: usize,
    col: usize,
    next: char,
    second: TokenKind,
    single: TokenKind,
) -> (r: (Lexeme<TokenKind>, usize, usize))
    requires
        pos < cs.len(),
        col + cs.len() < usize::MAX,
        kind_view(second) == KindView::Plain(second),
        kind_view(single) == KindView::Plain(single),
    ensures
        (lexeme_view(r.0), r.1 as int, r.2 as int) == pair_or(
            cs@,
            pos as int,
            col as int,
            next,
            second,
            single,
        ),
{
    if next_is(cs, pos + 1, next) {
        (Lexeme::Tok(second), pos + 2, col + 2)
    } else {
        (Lexeme::Tok(single), pos + 1, col + 1)
    }
}

fn lex_operator(cs: &Vec<char>, pos: usize, col: usize) -> (r: (Lexeme<TokenKind>, usize, usize))
    requires
        pos < cs.len(),
        col + cs.len() < usize::MAX,
    ensures
        (lexeme_view(r.0), r.1 as int, r.2 as int) == lex_operator_spec(cs@, pos as int, col as int),
{
    let c = cs[pos];
    if c == '+' {
        pair_or_exec(cs, pos, col, '=', TokenKind::CompoundAdd, TokenKind::Plus)
    } else if c == '-' {
        if next_is(cs, pos + 1, '>') {
            (Lexeme::Tok(TokenKind::Arrow), pos + 2, col + 2)
        } else {
            pair_or_exec(cs, pos, col, '=', TokenKind::CompoundSub, TokenKind::Minus)
        }
    } else if c == '*' {
        pair_or_exec(cs, pos, col, '=', TokenKind::CompoundMul, TokenKind::Star)
    } else if c == '/' {
        pair_or_exec(cs, pos, col, '=', TokenKind::CompoundDiv, TokenKind::Slash)
    } else if c == '%' {
        (Lexeme::Tok(TokenKind::Percent), pos + 1, col + 1)
    } else if c == '=' {
        if next_is(cs, pos + 1, '=') {
            (Lexeme::Tok(TokenKind::DoubleEqual), pos + 2, col + 2)
        } else {
            pair_or_exec(cs, pos, col, '>', TokenKind::FatArrow, TokenKind::Equal)
        }
    } else if c == '.' {
        pair_or_exec(cs, pos, col, '.', TokenKind::Range, TokenKind::Dot)
    } else if c == ':' {
        if next_is(cs, pos + 1, '=') {
            if next_is(cs, pos + 2, ':') {
                (Lexeme::Tok(TokenKind::Indentity), pos + 3, col + 3)
            } else {
                (Lexeme::Fault(LexerErrorKind::InvalidChar(':')), pos + 2, col + 2)
            }
        } else {
            (Lexeme::Tok(TokenKind::Colon), pos + 1, col + 1)
        }
    } else if c == ';' {
        (Lexeme::Tok(TokenKind::Semicolon), pos + 1, col + 1)
    } else if c == '|' {
        if next_is(cs, pos + 1, '|') {
            (Lexeme::Tok(TokenKind::Or), pos + 2, col + 2)
        } else {
            (Lexeme::Fault(LexerErrorKind::InvalidChar('|')), pos + 1, col + 1)
        }
    } else if c == '&' {
        if next_is(cs, pos + 1, '&') {
            (Lexeme::Tok(TokenKind::And), pos + 2, col + 2)
        } else {
            (Lexeme::Fault(LexerErrorKind::InvalidChar('&')), pos + 1, col + 1)
        }
    } else if c == '!' {
        pair_or_exec(cs, pos, col, '=', TokenKind::NotEqual, TokenKind::Not)
    } else if c == ',' {
        (Lexeme::Tok(TokenKind::Comma), pos + 1, col + 1)
    } else if c == '<' {
        pair_or_exec(cs, pos, col, '=', TokenKind::LessEqual, TokenKind::Less)
    } else if c == '>' {
        pair_or_exec(cs, pos, col, '=', TokenKind::GreaterEqual, TokenKind::Greater)
    } else if c == '{' {
        (Lexeme::Tok(TokenKind::LeftBrace), pos + 1, col + 1)
    } else if c == '}' {
        (Lexeme::Tok(TokenKind::RightBrace), pos + 1, col + 1)
    } else if c == '(' {
        (Lexeme::Tok(TokenKind::LeftParen), pos + 1, col + 1)
    } else if c == ')' {
        (Lexeme::Tok(TokenKind::RightParen), pos + 1, col + 1)
    } else if c == '[' {
        (Lexeme::Tok(TokenKind::LeftBracket), pos + 1, col + 1)
    } else if c == ']' {
        (Lexeme::Tok(TokenKind::RightBracket), pos + 1, col + 1)
    } else {
        (Lexeme::Fault(LexerErrorKind::InvalidChar(c)), pos + 1, col + 1)
    }
}

fn lex_step(cs: &Vec<char>, pos: usize, col: usize) -> (r: (Lexeme<TokenKind>, usize, usize))
    requires
        pos < cs.len(),
        col + cs.len() < usize::MAX,
    ensures
        (lexeme_view(r.0), r.1 as int, r.2 as int) == lex_step_spec(cs@, pos as int, col as int),
{
    let c = cs[pos];
    if is_whitespace(c) {
        (Lexeme::Blank, pos + 1, col + 1)
    } else if c == '[' {
        lex_vec_literal(cs, pos, col)
    } else if is_digit(c) {
        lex_num(cs, pos, col)
    } else if c == '-' {
        if pos + 1 < cs.len() && is_digit(cs[pos + 1]) {
            lex_num(cs, pos, col)
        } else {
            lex_operator(cs, pos, col)
        }
    } else if is_alpha(c) || c == '_' {
        lex_ident_or_keyword(cs, pos, col)
    } else if c == '"' {
        lex_str(cs, pos, col)
    } else {
        lex_operator(cs, pos, col)
    }
}

proof fn lemma_tokens_view_push(ts: Seq<Token>, t: Token)
    ensures
        tokens_view(ts.push(t)) == tokens_view(ts).push(token_view(t)),
{
    assert(tokens_view(ts.push(t)) =~= tokens_view(ts).push(token_view(t)));
}

/// Scans one line, appending its tokens and errors; returns whether it gave
/// up on a vector literal element too large for an `i128`.
fn lex_line(cs: &Vec<char>, line_no: usize, tokens: &mut Vec<Token>, errors: &mut Vec<LexerError>) -> (r: bool)
    requires
        cs.len() < usize::MAX / 4,
    ensures
        tokens_view(final(tokens)@) == tokens_view(old(tokens)@) + lex_line_spec(cs@, line_no).0,
        final(errors)@ == old(errors)@ + lex_line_spec(cs@, line_no).1,
        r == lex_line_spec(cs@, line_no).2,
{
    let ghost whole = lex_line_spec(cs@, line_no);
    let mut pos: usize = 0;
    let mut col: usize = 1;
    assert(tokens_view(old(tokens)@) + whole.0 =~= tokens_view(tokens@) + lex_line_from(cs@, line_no, 0, 1).0);
    while pos < cs.len()
        invariant
            cs.len() < usize::MAX / 4,
            pos <= cs.len(),
            1 <= col <= 2 * pos + 1,
            tokens_view(old(tokens)@) + whole.0 == tokens_view(tokens@) + lex_line_from(
                cs@,
                line_no,
                pos as int,
                col as int,
            ).0,
            old(errors)@ + whole.1 == errors@ + lex_line_from(cs@, line_no, pos as int, col as int).1,
            whole.2 == lex_line_from(cs@, line_no, pos as int, col as int).2,
            whole == lex_line_spec(cs@, line_no),
        decreases cs.len() - pos,
    {
        proof {
            lemma_step_bounds(cs@, pos as int, col as int);
        }
        let ghost rest = lex_line_from(cs@, line_no, pos as int, col as int);
        let (lx, np, nc) = lex_step(cs, pos, col);
        match lx {
            Lexeme::TooLarge => {
                assert(rest == (Seq::<(KindView, Span)>::empty(), Seq::<LexerError>::empty(), true));
                assert(tokens_view(tokens@) + rest.0 =~= tokens_view(tokens@));
                assert(errors@ + rest.1 =~= errors@);
                assert(tokens_view(old(tokens)@) + whole.0 =~= tokens_view(tokens@));
                assert(old(errors)@ + whole.1 =~= errors@);
                return true;
            },
            Lexeme::Blank => {},
            Lexeme::Tok(k) => {
                let t = Token { kind: k, span: Span { line: line_no, column: col } };
                proof {
                    lemma_tokens_view_push(tokens@, t);
                }
                tokens.push(t);
                assert(tokens_view(old(tokens)@) + whole.0 =~= tokens_view(tokens@) + lex_line_from(
                    cs@,
                    line_no,
                    np as int,
                    nc as int,
                ).0);
            },
            Lexeme::Fault(e) => {
                errors.push(LexerError { kind: e, span: Span { line: line_no, column: col } });
                let p = if np < cs.len() { np + 1 } else { np };
                assert(old(errors)@ + whole.1 =~= errors@ + lex_line_from(
                    cs@,
                    line_no,
                    p as int,
                    nc + 1,
                ).1);
                pos = p;
                col = nc + 1;
                continue;
            },
        }
        pos = np;
        col = nc;
    }
    assert(tokens_view(old(tokens)@) + whole.0 =~= tokens_view(tokens@));
    assert(old(errors)@ + whole.1 =~= errors@);
    false
}

/// Scans every line: tokens, errors, and whether a vector literal element
/// was too large for an `i128`.
fn lex_all(lines: &Vec<String>) -> (r: (Vec<Token>, Vec<LexerError>, bool))
    requires
        lines_fit(lines@),
    ensures
        tokens_view(r.0@) == lex_lines_spec(lines_view(lines@)).0,
        r.1@ == lex_lines_spec(lines_view(lines@)).1,
        r.2 == lex_lines_spec(lines_view(lines@)).2,
{
    let mut tokens: Vec<Token> = Vec::new();
    let mut errors: Vec<LexerError> = Vec::new();
    let mut too_large = false;
    let mut i: usize = 0;
    assert(lines_view(lines@).take(0) =~= Seq::<Seq<char>>::empty());
    assert(tokens_view(tokens@) =~= Seq::<(KindView, Span)>::empty());
    while i < lines.len()
        invariant
            lines_fit(lines@),
            i <= lines.len(),
            tokens_view(tokens@) == lex_lines_spec(lines_view(lines@).take(i as int)).0,
            errors@ == lex_lines_spec(lines_view(lines@).take(i as int)).1,
            too_large == lex_lines_spec(lines_view(lines@).take(i as int)).2,
        decreases lines.len() - i,
    {
        let cs = chars_of(lines[i].as_str());
        assert(lines@[i as int]@.len() < usize::MAX / 4);
        let over = lex_line(&cs, i + 1, &mut tokens, &mut errors);
        too_large = too_large || over;
        proof {
            let pre = lines_view(lines@).take(i + 1);
            assert(pre.drop_last() =~= lines_view(lines@).take(i as int));
            assert(pre.last() == lines@[i as int]@);
        }
        i += 1;
    }
    assert(lines_view(lines@).take(lines.len() as int) =~= lines_view(lines@));
    (tokens, errors, too_large)
}

/// The token that closes every token list.
pub open spec fn eof_token(lines: Seq<String>) -> (KindView, Span) {
    (KindView::Plain(TokenKind::EOF), Span { line: lines.len() as usize, column: 1 })
}

/// Whether every element of every vector literal fits in an `i128`; where
/// one does not, the source cannot be turned into tokens.
pub fn vec_literals_fit(lines: &Vec<String>) -> (r: bool)
    requires
        lines_fit(lines@),
    ensures
        r == !lex_lines_spec(lines_view(lines@)).2,
{
    let (_, _, too_large) = lex_all(lines);
    !too_large
}

/// Scans the lines of a source file (line numbers from 1, columns from 1).
/// Without errors the result is the tokens of the lines in order followed by
/// an `EOF` token on the last line's number; otherwise it is every error,
/// in order.
pub fn lex_lines(lines: &Vec<String>) -> (r: Result<Vec<Token>, LexerErrors>)
    requires
        lines_fit(lines@),
        !lex_lines_spec(lines_view(lines@)).2,
    ensures
        match r {
            Ok(ts) => lex_lines_spec(lines_view(lines@)).1.len() == 0 && tokens_view(ts@)
                == lex_lines_spec(lines_view(lines@)).0.push(eof_token(lines@)),
            Err(es) => lex_lines_spec(lines_view(lines@)).1.len() > 0 && es.0@ == lex_lines_spec(
                lines_view(lines@),
            ).1,
        },
{
    let (mut tokens, errors, _) = lex_all(lines);
    if errors.len() > 0 {
        return Err(LexerErrors(errors));
    }
    let eof = Token { kind: TokenKind::EOF, span: Span { line: lines.len(), column: 1 } };
    proof {
        lemma_tokens_view_push(tokens@, eof);
    }
    tokens.push(eof);
    Ok(tokens)
}


// ---------------------------------------------------------------------
// Telling token kinds apart and copying them
// ---------------------------------------------------------------------

/// A number for each variant of `TokenKind`, whatever it carries.
pub open spec fn kind_tag(k: TokenKind) -> u8 {
    match k {
            TokenKind::Fun => 0u8,
            TokenKind::Var => 1u8,
            TokenKind::Const => 2u8,
            TokenKind::Return => 3u8,
            TokenKind::Cmhr => 4u8,
            TokenKind::Cmho => 5u8,
            TokenKind::Print => 6u8,
            TokenKind::If => 7u8,
            TokenKind::Else => 8u8,
            TokenKind::This => 9u8,
            TokenKind::For => 10u8,
            TokenKind::In => 11u8,
            TokenKind::Range => 12u8,
            TokenKind::Break => 13u8,
            TokenKind::Continue => 14u8,
            TokenKind::When => 15u8,
            TokenKind::While => 16u8,
            TokenKind::Loop => 17u8,
            TokenKind::As => 18u8,
            TokenKind::UInt8 => 19u8,
            TokenKind::UInt16 => 20u8,
            TokenKind::UInt32 => 21u8,
            TokenKind::UInt64 => 22u8,
            TokenKind::UInt128 => 23u8,
            TokenKind::Int => 24u8,
            TokenKind::UInt => 25u8,
            TokenKind::Int8 => 26u8,
            TokenKind::Int16 => 27u8,
            TokenKind::Int32 => 28u8,
            TokenKind::Int64 => 29u8,
            TokenKind::Int128 => 30u8,
            TokenKind::Vec => 31u8,
            TokenKind::Bool => 32u8,
            TokenKind::Void => 33u8,
            TokenKind::Str => 34u8,
            TokenKind::IntLiteral(_) => 35u8,
            TokenKind::NegIntLiteral(_) => 36u8,
            TokenKind::UIntLiteral(_) => 37u8,
            TokenKind::BoolLiteral(_) => 38u8,
            TokenKind::StringLiteral(_) => 39u8,
            TokenKind::InnerType(_) => 40u8,
            TokenKind::VecLiteral(_) => 41u8,
            TokenKind::Ident(_) => 42u8,
            TokenKind::Plus => 43u8,
            TokenKind::Minus => 44u8,
            TokenKind::Star => 45u8,
            TokenKind::Slash => 46u8,
            TokenKind::Percent => 47u8,
            TokenKind::Equal => 48u8,
            TokenKind::DoubleEqual => 49u8,
            TokenKind::NotEqual => 50u8,
            TokenKind::FatArrow => 51u8,
            TokenKind::Less => 52u8,
            TokenKind::LessEqual => 53u8,
            TokenKind::Greater => 54u8,
            TokenKind::Indentity => 55u8,
            TokenKind::GreaterEqual => 56u8,
            TokenKind::CompoundAdd => 57u8,
            TokenKind::CompoundSub => 58u8,
            TokenKind::CompoundMul => 59u8,
            TokenKind::CompoundDiv => 60u8,
            TokenKind::And => 61u8,
            TokenKind::Or => 62u8,
            TokenKind::Not => 63u8,
            TokenKind::Comma => 64u8,
            TokenKind::Semicolon => 65u8,
            TokenKind::Colon => 66u8,
            TokenKind::Arrow => 67u8,
            TokenKind::Dot => 68u8,
            TokenKind::LeftParen => 69u8,
            TokenKind::RightParen => 70u8,
            TokenKind::LeftBrace => 71u8,
            TokenKind::RightBrace => 72u8,
            TokenKind::LeftBracket => 73u8,
            TokenKind::RightBracket => 74u8,
            TokenKind::EOF => 75u8,
    }
}

/// The kinds that carry nothing: one value per variant.
pub open spec fn is_plain(k: TokenKind) -> bool {
    match k {
        TokenKind::IntLiteral(_) | TokenKind::NegIntLiteral(_) | TokenKind::UIntLiteral(_)
        | TokenKind::BoolLiteral(_) | TokenKind::StringLiteral(_) | TokenKind::InnerType(_)
        | TokenKind::VecLiteral(_) | TokenKind::Ident(_) => false,
        _ => true,
    }
}

pub proof fn lemma_tag_plain(a: TokenKind, b: TokenKind)
    requires
        is_plain(b),
        kind_tag(a) == kind_tag(b),
    ensures
        a == b,
{
}

impl TokenKind {
    pub fn tag(&self) -> (r: u8)
        ensures
            r == kind_tag(*self),
    {
        match self {
            TokenKind::Fun => 0u8,
            TokenKind::Var => 1u8,
            TokenKind::Const => 2u8,
            TokenKind::Return => 3u8,
            TokenKind::Cmhr => 4u8,
            TokenKind::Cmho => 5u8,
            TokenKind::Print => 6u8,
            TokenKind::If => 7u8,
            TokenKind::Else => 8u8,
            TokenKind::This => 9u8,
            TokenKind::For => 10u8,
            TokenKind::In => 11u8,
            TokenKind::Range => 12u8,
            TokenKind::Break => 13u8,
            TokenKind::Continue => 14u8,
            TokenKind::When => 15u8,
            TokenKind::While => 16u8,
            TokenKind::Loop => 17u8,
            TokenKind::As => 18u8,
            TokenKind::UInt8 => 19u8,
            TokenKind::UInt16 => 20u8,
            TokenKind::UInt32 => 21u8,
            TokenKind::UInt64 => 22u8,
            TokenKind::UInt128 => 23u8,
            TokenKind::Int => 24u8,
            TokenKind::UInt => 25u8,
            TokenKind::Int8 => 26u8,
            TokenKind::Int16 => 27u8,
            TokenKind::Int32 => 28u8,
            TokenKind::Int64 => 29u8,
            TokenKind::Int128 => 30u8,
            TokenKind::Vec => 31u8,
            TokenKind::Bool => 32u8,
            TokenKind::Void => 33u8,
            TokenKind::Str => 34u8,
            TokenKind::IntLiteral(_) => 35u8,
            TokenKind::NegIntLiteral(_) => 36u8,
            TokenKind::UIntLiteral(_) => 37u8,
            TokenKind::BoolLiteral(_) => 38u8,
            TokenKind::StringLiteral(_) => 39u8,
            TokenKind::InnerType(_) => 40u8,
            TokenKind::VecLiteral(_) => 41u8,
            TokenKind::Ident(_) => 42u8,
            TokenKind::Plus => 43u8,
            TokenKind::Minus => 44u8,
            TokenKind::Star => 45u8,
            TokenKind::Slash => 46u8,
            TokenKind::Percent => 47u8,
            TokenKind::Equal => 48u8,
            TokenKind::DoubleEqual => 49u8,
            TokenKind::NotEqual => 50u8,
            TokenKind::FatArrow => 51u8,
            TokenKind::Less => 52u8,
            TokenKind::LessEqual => 53u8,
            TokenKind::Greater => 54u8,
            TokenKind::Indentity => 55u8,
            TokenKind::GreaterEqual => 56u8,
            TokenKind::CompoundAdd => 57u8,
            TokenKind::CompoundSub => 58u8,
            TokenKind::CompoundMul => 59u8,
            TokenKind::CompoundDiv => 60u8,
            TokenKind::And => 61u8,
            TokenKind::Or => 62u8,
            TokenKind::Not => 63u8,
            TokenKind::Comma => 64u8,
            TokenKind::Semicolon => 65u8,
            TokenKind::Colon => 66u8,
            TokenKind::Arrow => 67u8,
            TokenKind::Dot => 68u8,
            TokenKind::LeftParen => 69u8,
            TokenKind::RightParen => 70u8,
            TokenKind::LeftBrace => 71u8,
            TokenKind::RightBrace => 72u8,
            TokenKind::LeftBracket => 73u8,
            TokenKind::RightBracket => 74u8,
            TokenKind::EOF => 75u8,
        }
    }

    /// Whether this kind is `k`, a kind that carries nothing.
    pub fn is(&self, k: &TokenKind) -> (r: bool)
        requires
            is_plain(*k),
        ensures
            r == (*self == *k),
    {
        let r = self.tag() == k.tag();
        proof {
            if r {
                lemma_tag_plain(*self, *k);
            }
        }
        r
    }

    /// A copy of this kind.
    pub fn duplicate(&self) -> (r: TokenKind)
        ensures
            kind_view(r) == kind_view(*self),
            !(*self is VecLiteral) ==> r == *self,
    {
        match self {
            TokenKind::Fun => TokenKind::Fun,
            TokenKind::Var => TokenKind::Var,
            TokenKind::Const => TokenKind::Const,
            TokenKind::Return => TokenKind::Return,
            TokenKind::Cmhr => TokenKind::Cmhr,
            TokenKind::Cmho => TokenKind::Cmho,
            TokenKind::Print => TokenKind::Print,
            TokenKind::If => TokenKind::If,
            TokenKind::Else => TokenKind::Else,
            TokenKind::This => TokenKind::This,
            TokenKind::For => TokenKind::For,
            TokenKind::In => TokenKind::In,
            TokenKind::Range => TokenKind::Range,
            TokenKind::Break => TokenKind::Break,
            TokenKind::Continue => TokenKind::Continue,
            TokenKind::When => TokenKind::When,
            TokenKind::While => TokenKind::While,
            TokenKind::Loop => TokenKind::Loop,
            TokenKind::As => TokenKind::As,
            TokenKind::UInt8 => TokenKind::UInt8,
            TokenKind::UInt16 => TokenKind::UInt16,
            TokenKind::UInt32 => TokenKind::UInt32,
            TokenKind::UInt64 => TokenKind::UInt64,
            TokenKind::UInt128 => TokenKind::UInt128,
            TokenKind::Int => TokenKind::Int,
            TokenKind::UInt => TokenKind::UInt,
            TokenKind::Int8 => TokenKind::Int8,
            TokenKind::Int16 => TokenKind::Int16,
            TokenKind::Int32 => TokenKind::Int32,
            TokenKind::Int64 => TokenKind::Int64,
            TokenKind::Int128 => TokenKind::Int128,
            TokenKind::Vec => TokenKind::Vec,
            TokenKind::Bool => TokenKind::Bool,
            TokenKind::Void => TokenKind::Void,
            TokenKind::Str => TokenKind::Str,
            TokenKind::IntLiteral(x) => TokenKind::IntLiteral(*x),
            TokenKind::NegIntLiteral(x) => TokenKind::NegIntLiteral(*x),
            TokenKind::UIntLiteral(x) => TokenKind::UIntLiteral(*x),
            TokenKind::BoolLiteral(x) => TokenKind::BoolLiteral(*x),
            TokenKind::StringLiteral(x) => TokenKind::StringLiteral(x.clone()),
            TokenKind::InnerType(x) => TokenKind::InnerType(x.clone()),
            TokenKind::VecLiteral(x) => TokenKind::VecLiteral(x.clone()),
            TokenKind::Ident(x) => TokenKind::Ident(x.clone()),
            TokenKind::Plus => TokenKind::Plus,
            TokenKind::Minus => TokenKind::Minus,
            TokenKind::Star => TokenKind::Star,
            TokenKind::Slash => TokenKind::Slash,
            TokenKind::Percent => TokenKind::Percent,
            TokenKind::Equal => TokenKind::Equal,
            TokenKind::DoubleEqual => TokenKind::DoubleEqual,
            TokenKind::NotEqual => TokenKind::NotEqual,
            TokenKind::FatArrow => TokenKind::FatArrow,
            TokenKind::Less => TokenKind::Less,
            TokenKind::LessEqual => TokenKind::LessEqual,
            TokenKind::Greater => TokenKind::Greater,
            TokenKind::Indentity => TokenKind::Indentity,
            TokenKind::GreaterEqual => TokenKind::GreaterEqual,
            TokenKind::CompoundAdd => TokenKind::CompoundAdd,
            TokenKind::CompoundSub => TokenKind::CompoundSub,
            TokenKind::CompoundMul => TokenKind::CompoundMul,
            TokenKind::CompoundDiv => TokenKind::CompoundDiv,
            TokenKind::And => TokenKind::And,
            TokenKind::Or => TokenKind::Or,
            TokenKind::Not => TokenKind::Not,
            TokenKind::Comma => TokenKind::Comma,
            TokenKind::Semicolon => TokenKind::Semicolon,
            TokenKind::Colon => TokenKind::Colon,
            TokenKind::Arrow => TokenKind::Arrow,
            TokenKind::Dot => TokenKind::Dot,
            TokenKind::LeftParen => TokenKind::LeftParen,
            TokenKind::RightParen => TokenKind::RightParen,
            TokenKind::LeftBrace => TokenKind::LeftBrace,
            TokenKind::RightBrace => TokenKind::RightBrace,
            TokenKind::LeftBracket => TokenKind::LeftBracket,
            TokenKind::RightBracket => TokenKind::RightBracket,
            TokenKind::EOF => TokenKind::EOF,
        }
    }
}

} // verus!
