//! The token grammar as spec functions over the source's characters: what one
//! pull from a given index yields, and the whole scan of a text.
use vstd::prelude::*;
use crate::chars::{alphanumeric, is_ascii_digit, parsed_i32, white_space};
use crate::text::{col_at, row_at};
use crate::token::{KindModel, Op, TokenModel};

verus! {

/// The lookahead character at index `i`, or `'\0'` past the end.
pub open spec fn char_at(s: Seq<char>, i: int) -> char {
    if 0 <= i < s.len() {
        s[i]
    } else {
        '\0'
    }
}

/// First index at or after `i` that is neither whitespace nor inside a line
/// comment. A comment runs from `//` up to the next line feed, which it leaves.
pub open spec fn skip_trivia(s: Seq<char>, i: int) -> int
    decreases s.len() - i, 0int,
{
    if i >= s.len() {
        i
    } else if white_space(s[i]) {
        skip_trivia(s, i + 1)
    } else if s[i] == '/' && char_at(s, i + 1) == '/' {
        skip_comment(s, i + 1)
    } else {
        i
    }
}

/// Where scanning resumes from index `i` inside a line comment.
pub open spec fn skip_comment(s: Seq<char>, i: int) -> int
    decreases s.len() - i, 1int,
{
    if i >= s.len() {
        i
    } else if s[i] == '\n' {
        skip_trivia(s, i)
    } else {
        skip_comment(s, i + 1)
    }
}

/// True of the characters that may continue an identifier.
pub open spec fn ident_char(c: char) -> bool {
    alphanumeric(c) || c == '_'
}

/// True of the characters that may start an identifier.
pub open spec fn ident_start(c: char) -> bool {
    ('a' <= c && c <= 'z') || ('A' <= c && c <= 'Z') || c == '_'
}

/// End of the longest run of identifier characters from index `i`.
pub open spec fn ident_end(s: Seq<char>, i: int) -> int
    decreases s.len() - i,
{
    if 0 <= i < s.len() && ident_char(s[i]) {
        ident_end(s, i + 1)
    } else {
        i
    }
}

/// End of the longest run of decimal digits from index `i`.
pub open spec fn number_end(s: Seq<char>, i: int) -> int
    decreases s.len() - i,
{
    if 0 <= i < s.len() && is_ascii_digit(s[i]) {
        number_end(s, i + 1)
    } else {
        i
    }
}

/// The value of a number literal: its digits read as an `i32`, or zero where
/// they do not make one.
pub open spec fn literal_value(digits: Seq<char>) -> i32 {
    match parsed_i32(digits) {
        Some(v) => v,
        None => 0,
    }
}

/// A token found in a text, with the range of indices `start..end` of the
/// characters that it consumed.
pub struct Lexeme {
    pub kind: KindModel,
    pub start: int,
    pub end: int,
}

impl Lexeme {
    /// The token that this lexeme becomes in the text `s`.
    pub open spec fn token(self, s: Seq<char>) -> TokenModel {
        TokenModel { kind: self.kind, row: row_at(s, self.start), col: col_at(s, self.start) }
    }
}

/// What a lookahead character starts.
#[derive(Debug, Clone, Copy, PartialEq, Eq, Structural)]
pub enum Start {
    Ident,
    Number,
    Comment,
    Opr(Op),
    OpeningBracket,
    ClosingBracket,
    Nothing,
}

/// The token dispatch: what the lookahead character `c` starts when `d`
/// follows it (`'\0'` past the end).
pub open spec fn start_of(c: char, d: char) -> Start {
    if ident_start(c) {
        Start::Ident
    } else if is_ascii_digit(c) {
        Start::Number
    } else if c == '+' {
        Start::Opr(Op::Plus)
    } else if c == '-' {
        Start::Opr(Op::Minus)
    } else if c == '*' {
        Start::Opr(Op::Multiply)
    } else if c == '/' && d == '/' {
        Start::Comment
    } else if c == '/' {
        Start::Opr(Op::Divide)
    } else if c == '%' {
        Start::Opr(Op::Modulo)
    } else if c == '=' {
        Start::Opr(Op::Equal)
    } else if c == '>' && d == '=' {
        Start::Opr(Op::GreaterOrEqual)
    } else if c == '>' {
        Start::Opr(Op::Greater)
    } else if c == '<' && d == '=' {
        Start::Opr(Op::LessOrEqual)
    } else if c == '<' && d == '>' {
        Start::Opr(Op::NotEqual)
    } else if c == '<' {
        Start::Opr(Op::Less)
    } else if c == '(' {
        Start::OpeningBracket
    } else if c == ')' {
        Start::ClosingBracket
    } else {
        Start::Nothing
    }
}

/// Number of characters that an operator takes.
pub open spec fn op_len(op: Op) -> int {
    match op {
        Op::GreaterOrEqual | Op::LessOrEqual | Op::NotEqual => 2,
        _ => 1,
    }
}

/// Whether an operator takes two characters.
pub fn is_two_char(op: Op) -> (r: bool)
    ensures
        r == (op_len(op) == 2),
{
    match op {
        Op::GreaterOrEqual | Op::LessOrEqual | Op::NotEqual => true,
        _ => false,
    }
}

/// Decides what the lookahead character `c` starts, looking at the character
/// `d` after it only to tell `//`, `>=`, `<=` and `<>` apart.
pub fn classify(c: char, d: char) -> (r: Start)
    ensures
        r == start_of(c, d),
{
    if ('a' <= c && c <= 'z') || ('A' <= c && c <= 'Z') || c == '_' {
        Start::Ident
    } else if '0' <= c && c <= '9' {
        Start::Number
    } else if c == '+' {
        Start::Opr(Op::Plus)
    } else if c == '-' {
        Start::Opr(Op::Minus)
    } else if c == '*' {
        Start::Opr(Op::Multiply)
    } else if c == '/' {
        if d == '/' {
            Start::Comment
        } else {
            Start::Opr(Op::Divide)
        }
    } else if c == '%' {
        Start::Opr(Op::Modulo)
    } else if c == '=' {
        Start::Opr(Op::Equal)
    } else if c == '>' {
        if d == '=' {
            Start::Opr(Op::GreaterOrEqual)
        } else {
            Start::Opr(Op::Greater)
        }
    } else if c == '<' {
        if d == '=' {
            Start::Opr(Op::LessOrEqual)
        } else if d == '>' {
            Start::Opr(Op::NotEqual)
        } else {
            Start::Opr(Op::Less)
        }
    } else if c == '(' {
        Start::OpeningBracket
    } else if c == ')' {
        Start::ClosingBracket
    } else {
        Start::Nothing
    }
}

/// The lexeme of kind `kind` that spans `start..end`, and the index after it.
pub open spec fn emit(kind: KindModel, start: int, end: int) -> (Option<Lexeme>, int) {
    (Some(Lexeme { kind, start, end }), end)
}

/// One pull from index `i`: the token found after the trivia, if any, and
/// the index at which the next pull starts. A character that starts no token,
/// and the end of the text, yield no token and leave the index on them.
pub open spec fn step(s: Seq<char>, i: int) -> (Option<Lexeme>, int) {
    let k = skip_trivia(s, i);
    match start_of(char_at(s, k), char_at(s, k + 1)) {
        Start::Ident => {
            let e = ident_end(s, k + 1);
            emit(KindModel::Ident(s.subrange(k, e)), k, e)
        },
        Start::Number => {
            let e = number_end(s, k + 1);
            emit(KindModel::Num(literal_value(s.subrange(k, e))), k, e)
        },
        Start::Opr(op) => emit(KindModel::Opr(op), k, k + op_len(op)),
        Start::OpeningBracket => emit(KindModel::OpeningBracket, k, k + 1),
        Start::ClosingBracket => emit(KindModel::ClosingBracket, k, k + 1),
        _ => (None, k),
    }
}

/// Trivia skipping moves forward and stays within the text.
pub proof fn lemma_skip_bounds(s: Seq<char>, i: int)
    requires
        0 <= i <= s.len(),
    ensures
        i <= skip_trivia(s, i) <= s.len(),
        i <= skip_comment(s, i) <= s.len(),
    decreases s.len() - i,
{
    if i < s.len() {
        lemma_skip_bounds(s, i + 1);
    }
}

/// Runs of identifier characters or of decimal digits stay within the text.
pub proof fn lemma_run_bounds(s: Seq<char>, i: int)
    requires
        0 <= i <= s.len(),
    ensures
        i <= ident_end(s, i) <= s.len(),
        i <= number_end(s, i) <= s.len(),
    decreases s.len() - i,
{
    if i < s.len() {
        lemma_run_bounds(s, i + 1);
    }
}

/// A pull that yields a token consumes at least its first character, and a
/// token's range lies after the starting index and within the text.
pub proof fn lemma_step_bounds(s: Seq<char>, i: int)
    requires
        0 <= i <= s.len(),
    ensures
        i <= step(s, i).1 <= s.len(),
        step(s, i).0 is Some ==> {
            let t = step(s, i).0->0;
            &&& i <= t.start < t.end
            &&& t.end == step(s, i).1
        },
{
    lemma_skip_bounds(s, i);
    let k = skip_trivia(s, i);
    if k < s.len() {
        lemma_run_bounds(s, k + 1);
    }
}

#[via_fn]
proof fn scan_from_decreases(s: Seq<char>, i: int) {
    if 0 <= i <= s.len() {
        lemma_step_bounds(s, i);
    }
}

/// The tokens that successive pulls yield from index `i` until one yields none.
pub open spec fn scan_from(s: Seq<char>, i: int) -> Seq<Lexeme>
    decreases s.len() - i,
    when 0 <= i <= s.len()
    via scan_from_decreases
{
    match step(s, i).0 {
        Some(t) => seq![t] + scan_from(s, step(s, i).1),
        None => Seq::empty(),
    }
}

/// The tokens of a whole text.
pub open spec fn scan(s: Seq<char>) -> Seq<Lexeme> {
    scan_from(s, 0)
}

} // verus!
