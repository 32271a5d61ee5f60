//! The scanner: a cursor over the source that tracks byte offset, row and
//! column, and a pull operation that yields one token at a time.
use vstd::prelude::*;
use vstd::utf8::*;
use crate::chars::{
    char_width, is_alphanumeric, is_ascii_digit, is_white_space, parse_i32, white_space,
};
use crate::grammar::{
    char_at, classify, ident_char, ident_end, is_two_char, lemma_step_bounds, number_end, scan, scan_from,
    skip_comment, skip_trivia, step, Lexeme, Start,
};
use crate::text::{
    byte_at, col_at, lemma_byte_at_next, lemma_encode_injective, lemma_encode_len,
    lemma_position_bounds, lemma_prefix_boundary, row_at,
};
use crate::token::{Token, TokenKind};

verus! {

broadcast use {vstd::string::axiom_spec_iter, vstd::string::next_postcondition};

/// The first character of `s`, if any.
fn first_char(s: &str) -> (r: Option<char>)
    ensures
        r == if s@.len() > 0 {
            Some(s@[0])
        } else {
            None
        },
{
    let mut it = s.chars();
    it.next()
}

/// What the escape `\ch` stands for, for the escapes that are implemented.
pub open spec fn escaped(ch: char) -> char {
    if ch == 'n' {
        '\n'
    } else if ch == 't' {
        '\t'
    } else if ch == 'r' {
        '\r'
    } else {
        ch
    }
}

/// What the scanner stands for: the source's characters and the index of the
/// lookahead character (the length of the source once it is used up).
pub struct LexerView {
    pub source: Seq<char>,
    pub index: int,
}

/// The scanner over a borrowed source text.
#[derive(Debug, Clone)]
pub struct Lexer<'a> {
    /// The source string being read
    source: &'a str,
    /// The lookahead character, or `'\0'` once the source is used up
    prev: char,
    /// The source from the lookahead character on
    rest: &'a str,
    /// The byte offset of the lookahead character
    pos: usize,
    /// The row the lexer is on
    row: usize,
    /// The column the lexer is on
    col: usize,
}

impl<'a> View for Lexer<'a> {
    type V = LexerView;

    closed spec fn view(&self) -> LexerView {
        LexerView { source: self.source@, index: self.source@.len() - self.rest@.len() }
    }
}

impl<'a> Lexer<'a> {
    /// The scanner's state agrees with its source and lookahead index.
    pub closed spec fn wf(&self) -> bool {
        let s = self.source@;
        let i = self@.index;
        &&& self.rest@.len() <= s.len()
        &&& self.rest@ == s.subrange(i, s.len() as int)
        &&& self.prev == char_at(s, i)
        &&& self.pos == byte_at(s, i)
        &&& self.row == row_at(s, i)
        &&& self.col == col_at(s, i)
        &&& encode_utf8(s).len() <= isize::MAX
    }

    /// The lookahead index of a well-formed scanner lies within its source.
    pub proof fn lemma_index_bounds(&self)
        requires
            self.wf(),
        ensures
            0 <= self@.index <= self@.source.len(),
    {
    }

    /// Creates a new lexer from a `&str`, whose UTF-8 encoding, like that of
    /// any Rust string, takes at most `isize::MAX` bytes.
    pub fn new(source: &'a str) -> (r: Self)
        requires
            encode_utf8(source@).len() <= isize::MAX,
        ensures
            r.wf(),
            r@ == (LexerView { source: source@, index: 0 }),
    {
        let prev = match first_char(source) {
            Some(c) => c,
            None => '\0',
        };
        let r = Lexer { source, prev, rest: source, pos: 0, row: 1, col: 1 };
        proof {
            assert(source@.subrange(0, source@.len() as int) =~= source@);
            assert(source@.subrange(0, 0) =~= Seq::<char>::empty());
        }
        r
    }

    /// The lexer's position in the file
    pub fn pos(&self) -> (r: (usize, usize))
        requires
            self.wf(),
        ensures
            r.0 == row_at(self@.source, self@.index),
            r.1 == col_at(self@.source, self@.index),
    {
        (self.row, self.col)
    }

    /// Is the lexer over?
    pub fn is_over(&self) -> (r: bool)
        requires
            self.wf(),
        ensures
            r == (char_at(self@.source, self@.index) == '\0'),
    {
        self.prev == '\0'
    }

    /// Whether the whole source has been consumed.
    fn at_end(&self) -> (r: bool)
        requires
            self.wf(),
        ensures
            r == (self@.index >= self@.source.len()),
    {
        self.rest.is_empty()
    }

    /// Takes the part of the source between the byte offsets of the
    /// characters at indices `i` and `j`.
    fn slice(&self, a: usize, b: usize, Ghost(i): Ghost<int>, Ghost(j): Ghost<int>) -> (r: &'a str)
        requires
            self.wf(),
            0 <= i <= j <= self@.source.len(),
            a == byte_at(self@.source, i),
            b == byte_at(self@.source, j),
        ensures
            r@ == self@.source.subrange(i, j),
    {
        let ghost s = self.source@;
        let ghost pre = s.subrange(0, j);
        proof {
            lemma_prefix_boundary(s, j);
            assert(pre.subrange(0, i) =~= s.subrange(0, i));
            lemma_prefix_boundary(pre, i);
        }
        let (head, _) = self.source.split_at(b);
        proof {
            lemma_encode_injective(head@, pre);
        }
        let (_, mid) = head.split_at(a);
        proof {
            assert(pre.subrange(i, pre.len() as int) =~= s.subrange(i, j));
            lemma_encode_injective(mid@, s.subrange(i, j));
        }
        mid
    }

    /// Moves the cursor past the lookahead character, updating byte offset,
    /// row and column, and returns the new lookahead character
    pub fn next_char(&mut self) -> (r: Option<char>)
        requires
            old(self).wf(),
        ensures
            final(self).wf(),
            final(self)@.source == old(self)@.source,
            final(self)@.index == if old(self)@.index < old(self)@.source.len() {
                old(self)@.index + 1
            } else {
                old(self)@.index
            },
            r == if final(self)@.index < final(self)@.source.len() {
                Some(final(self)@.source[final(self)@.index])
            } else {
                None
            },
    {
        if self.rest.is_empty() {
            self.prev = '\0';
            return None;
        }
        let ghost s = self.source@;
        let ghost i = self@.index;
        let ghost t = self.rest@;
        let c = self.prev;
        let w = char_width(c);
        proof {
            lemma_byte_at_next(t, 0);
            assert(t.subrange(0, 0) =~= Seq::<char>::empty());
            lemma_prefix_boundary(t, 1);
            lemma_byte_at_next(s, i);
            lemma_encode_len(s);
            lemma_position_bounds(s, i + 1);
        }
        let (_, tail) = self.rest.split_at(w);
        proof {
            lemma_encode_injective(tail@, t.subrange(1, t.len() as int));
            assert(t.subrange(1, t.len() as int) =~= s.subrange(i + 1, s.len() as int));
        }
        self.rest = tail;
        self.pos = self.pos + w;
        if c == '\n' {
            self.row = self.row + 1;
            self.col = 1;
        } else {
            self.col = self.col + 1;
        }
        let next = first_char(tail);
        match next {
            Some(ch) => {
                self.prev = ch;
            },
            None => {
                self.prev = '\0';
            },
        }
        next
    }

    /// The character after the lookahead one, without moving the cursor
    pub fn peek(&self) -> (r: Option<char>)
        requires
            self.wf(),
        ensures
            r == if self@.index + 1 < self@.source.len() {
                Some(self@.source[self@.index + 1])
            } else {
                None
            },
    {
        let mut it = self.rest.chars();
        let _ = it.next();
        it.next()
    }

    /// Removes an identifier from the start of the source string: the
    /// lookahead character, then the longest run of identifier characters.
    fn trim_ident(&mut self) -> (r: &'a str)
        requires
            old(self).wf(),
            old(self)@.index < old(self)@.source.len(),
        ensures
            final(self).wf(),
            final(self)@.source == old(self)@.source,
            final(self)@.index == ident_end(old(self)@.source, old(self)@.index + 1),
            forall|k: int|
                old(self)@.index < k < final(self)@.index ==> ident_char(old(self)@.source[k]),
            final(self)@.index == old(self)@.source.len() || !ident_char(
                old(self)@.source[final(self)@.index],
            ),
            r@ == old(self)@.source.subrange(old(self)@.index, final(self)@.index),
    {
        let ghost s = self.source@;
        let ghost i = self@.index;
        let start_pos = self.pos;
        self.next_char();
        while !self.at_end() && (is_alphanumeric(self.prev) || self.prev == '_')
            invariant
                self.wf(),
                self@.source == s,
                i < self@.index <= s.len(),
                ident_end(s, i + 1) == ident_end(s, self@.index),
                forall|k: int| i < k < self@.index ==> ident_char(s[k]),
            decreases s.len() - self@.index,
        {
            self.next_char();
        }
        self.slice(start_pos, self.pos, Ghost(i), Ghost(self@.index))
    }

    /// Removes a number literal from the start of the source string: the
    /// lookahead digit, then the longest run of decimal digits `0` to `9`.
    fn trim_number(&mut self) -> (r: &'a str)
        requires
            old(self).wf(),
            old(self)@.index < old(self)@.source.len(),
        ensures
            final(self).wf(),
            final(self)@.source == old(self)@.source,
            final(self)@.index == number_end(old(self)@.source, old(self)@.index + 1),
            forall|k: int|
                old(self)@.index < k < final(self)@.index ==> is_ascii_digit(old(self)@.source[k]),
            final(self)@.index == old(self)@.source.len() || !is_ascii_digit(
                old(self)@.source[final(self)@.index],
            ),
            r@ == old(self)@.source.subrange(old(self)@.index, final(self)@.index),
    {
        let ghost s = self.source@;
        let ghost i = self@.index;
        let start_pos = self.pos;
        self.next_char();
        while !self.at_end() && '0' <= self.prev && self.prev <= '9'
            invariant
                self.wf(),
                self@.source == s,
                i < self@.index <= s.len(),
                number_end(s, i + 1) == number_end(s, self@.index),
                forall|k: int| i < k < self@.index ==> is_ascii_digit(s[k]),
            decreases s.len() - self@.index,
        {
            self.next_char();
        }
        self.slice(start_pos, self.pos, Ghost(i), Ghost(self@.index))
    }

    /// Removes a comment from the start of the source string, up to the next
    /// line feed (which stays) or the end of the source.
    fn trim_comment(&mut self)
        requires
            old(self).wf(),
        ensures
            final(self).wf(),
            final(self)@.source == old(self)@.source,
            old(self)@.index <= final(self)@.index <= old(self)@.source.len(),
            final(self)@.index == old(self)@.source.len() || final(self)@.source[final(self)@.index] == '\n',
            forall|k: int| old(self)@.index <= k < final(self)@.index ==> old(self)@.source[k] != '\n',
            skip_comment(old(self)@.source, old(self)@.index) == skip_trivia(old(self)@.source, final(self)@.index),
    {
        let ghost s = self.source@;
        let ghost i = self@.index;
        while !self.at_end() && self.prev != '\n'
            invariant
                self.wf(),
                self@.source == s,
                i <= self@.index <= s.len(),
                forall|k: int| i <= k < self@.index ==> s[k] != '\n',
                skip_comment(s, i) == skip_comment(s, self@.index),
            decreases s.len() - self@.index,
        {
            self.next_char();
        }
    }

    /// Trims whitespace from the start of the string
    fn trim_whitespace(&mut self)
        requires
            old(self).wf(),
        ensures
            final(self).wf(),
            final(self)@.source == old(self)@.source,
            old(self)@.index <= final(self)@.index <= old(self)@.source.len(),
            final(self)@.index == old(self)@.source.len() || !white_space(final(self)@.source[final(self)@.index]),
            forall|k: int| old(self)@.index <= k < final(self)@.index ==> white_space(old(self)@.source[k]),
            skip_trivia(old(self)@.source, old(self)@.index) == skip_trivia(old(self)@.source, final(self)@.index),
    {
        let ghost s = self.source@;
        let ghost i = self@.index;
        while !self.at_end() && is_white_space(self.prev)
            invariant
                self.wf(),
                self@.source == s,
                i <= self@.index <= s.len(),
                forall|k: int| i <= k < self@.index ==> white_space(s[k]),
                skip_trivia(s, i) == skip_trivia(s, self@.index),
            decreases s.len() - self@.index,
        {
            self.next_char();
        }
    }

    /// One token and the index it leaves, as `step` gives them.
    pub open spec fn pulled(self, r: Option<Token<'a>>, next: LexerView) -> bool {
        let (t, e) = step(self@.source, self@.index);
        &&& next.source == self@.source
        &&& next.index == e
        &&& match t {
            Some(l) => r is Some && r->0@ == l.token(self@.source),
            None => r is None,
        }
    }

    /// Produces the next token, skipping whitespace and line comments first;
    /// `None` at the end of the source or at a character that starts no token.
    pub fn next(&mut self) -> (r: Option<Token<'a>>)
        requires
            old(self).wf(),
        ensures
            final(self).wf(),
            old(self).pulled(r, final(self)@),
    {
        let ghost s = self.source@;
        let ghost i0 = self@.index;
        loop
            invariant
                self.wf(),
                self@.source == s,
                old(self)@ == (LexerView { source: s, index: i0 }),
                i0 <= self@.index <= s.len(),
                skip_trivia(s, i0) == skip_trivia(s, self@.index),
            decreases s.len() - self@.index,
        {
            self.trim_whitespace();
            let position = self.pos();
            let ghost k = self@.index;
            let d = match self.peek() {
                Some(x) => x,
                None => '\0',
            };
            proof {
                if !(self.prev == '/' && d == '/') {
                    assert(skip_trivia(s, k) == k);
                }
            }
            let kind: Option<TokenKind<'a>> = match classify(self.prev, d) {
                Start::Ident => Some(TokenKind::Ident(self.trim_ident())),
                Start::Number => {
                    let digits = self.trim_number();
                    let value = match parse_i32(digits) {
                        Some(v) => v,
                        None => 0,
                    };
                    Some(TokenKind::Num(value))
                },
                Start::Comment => {
                    self.next_char();
                    self.trim_comment();
                    continue ;
                },
                Start::Opr(op) => {
                    self.next_char();
                    if is_two_char(op) {
                        self.next_char();
                    }
                    Some(TokenKind::Opr(op))
                },
                Start::OpeningBracket => {
                    self.next_char();
                    Some(TokenKind::OpeningBracket)
                },
                Start::ClosingBracket => {
                    self.next_char();
                    Some(TokenKind::ClosingBracket)
                },
                Start::Nothing => None,
            };
            return match kind {
                Some(kind) => Some(Token { kind, position }),
                None => None,
            };
        }
    }

    /// The character that the escape `\ch` stands for: `n`, `t` and `r` give
    /// a line feed, a tab and a carriage return, and any other character stands
    /// for itself. Unicode (`\u`) and hex (`\x`) escapes are not implemented,
    /// so callers may not ask for them.
    pub fn unicode_escape(&mut self, ch: char) -> (r: Option<char>)
        requires
            ch != 'u',
            ch != 'x',
        ensures
            *final(self) == *old(self),
            r == Some(escaped(ch)),
    {
        let res = if ch == 'n' {
            '\n'
        } else if ch == 't' {
            '\t'
        } else if ch == 'r' {
            '\r'
        } else {
            ch
        };
        Some(res)
    }
}

/// Scans the whole source: the tokens that successive pulls yield, up to the
/// first pull that yields none.
pub fn tokenize<'a>(source: &'a str) -> (r: Vec<Token<'a>>)
    requires
        encode_utf8(source@).len() <= isize::MAX,
    ensures
        r.len() == scan(source@).len(),
        forall|j: int| 0 <= j < r.len() ==> r[j]@ == #[trigger] scan(source@)[j].token(source@),
{
    let ghost s = source@;
    let mut lexer = Lexer::new(source);
    let mut out: Vec<Token<'a>> = Vec::new();
    let ghost mut done: Seq<Lexeme> = Seq::empty();
    loop
        invariant_except_break
            scan(s) == done + scan_from(s, lexer@.index),
        invariant
            lexer.wf(),
            lexer@.source == s,
            0 <= lexer@.index <= s.len(),
            out.len() == done.len(),
            forall|j: int| 0 <= j < out.len() ==> out[j]@ == #[trigger] done[j].token(s),
        ensures
            scan(s) == done,
        decreases s.len() - lexer@.index,
    {
        let ghost i = lexer@.index;
        proof {
            lemma_step_bounds(s, i);
        }
        match lexer.next() {
            Some(t) => {
                proof {
                    let l = step(s, i).0->0;
                    assert(scan_from(s, i) == seq![l] + scan_from(s, step(s, i).1));
                    assert(done + scan_from(s, i) =~= done.push(l) + scan_from(s, step(s, i).1));
                    done = done.push(l);
                }
                out.push(t);
            },
            None => {
                proof {
                    assert(done + scan_from(s, i) =~= done);
                }
                break ;
            },
        }
    }
    out
}

} // verus!
