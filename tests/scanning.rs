use lexer::{classify, tokenize, Lexer, Op, Start, Token, TokenKind};

fn tok(kind: TokenKind<'_>, row: usize, col: usize) -> Token<'_> {
    Token { kind, position: (row, col) }
}

fn kinds<'a>(tokens: &[Token<'a>]) -> Vec<TokenKind<'a>> {
    tokens.iter().map(|t| t.kind).collect()
}

#[test]
fn empty_input_yields_nothing() {
    assert!(tokenize("").is_empty());
    let mut lexer = Lexer::new("");
    assert!(lexer.is_over());
    assert_eq!(lexer.next(), None);
    assert_eq!(lexer.next(), None);
}

#[test]
fn identifiers_with_positions() {
    assert_eq!(
        tokenize("foo123 bar"),
        vec![
            tok(TokenKind::Ident("foo123"), 1, 1),
            tok(TokenKind::Ident("bar"), 1, 8),
        ]
    );
}

#[test]
fn numbers_and_plus() {
    assert_eq!(
        tokenize("12+34"),
        vec![
            tok(TokenKind::Num(12), 1, 1),
            tok(TokenKind::Opr(Op::Plus), 1, 3),
            tok(TokenKind::Num(34), 1, 4),
        ]
    );
}

#[test]
fn two_character_operators() {
    assert_eq!(
        kinds(&tokenize("a>=b<>c<d")),
        vec![
            TokenKind::Ident("a"),
            TokenKind::Opr(Op::GreaterOrEqual),
            TokenKind::Ident("b"),
            TokenKind::Opr(Op::NotEqual),
            TokenKind::Ident("c"),
            TokenKind::Opr(Op::Less),
            TokenKind::Ident("d"),
        ]
    );
}

#[test]
fn all_operators_and_brackets() {
    assert_eq!(
        kinds(&tokenize("+ - * / % = > >= < <= <> ( )")),
        vec![
            TokenKind::Opr(Op::Plus),
            TokenKind::Opr(Op::Minus),
            TokenKind::Opr(Op::Multiply),
            TokenKind::Opr(Op::Divide),
            TokenKind::Opr(Op::Modulo),
            TokenKind::Opr(Op::Equal),
            TokenKind::Opr(Op::Greater),
            TokenKind::Opr(Op::GreaterOrEqual),
            TokenKind::Opr(Op::Less),
            TokenKind::Opr(Op::LessOrEqual),
            TokenKind::Opr(Op::NotEqual),
            TokenKind::OpeningBracket,
            TokenKind::ClosingBracket,
        ]
    );
}

#[test]
fn double_equals_is_two_tokens() {
    assert_eq!(
        kinds(&tokenize("a==b")),
        vec![
            TokenKind::Ident("a"),
            TokenKind::Opr(Op::Equal),
            TokenKind::Opr(Op::Equal),
            TokenKind::Ident("b"),
        ]
    );
}

#[test]
fn comment_is_skipped_and_row_advances() {
    assert_eq!(tokenize("// comment\n42"), vec![tok(TokenKind::Num(42), 2, 1)]);
}

#[test]
fn comment_at_end_of_input_ends_the_scan() {
    assert_eq!(
        tokenize("x // trailing"),
        vec![tok(TokenKind::Ident("x"), 1, 1)]
    );
}

#[test]
fn divide_is_not_a_comment() {
    assert_eq!(
        tokenize("6/2"),
        vec![
            tok(TokenKind::Num(6), 1, 1),
            tok(TokenKind::Opr(Op::Divide), 1, 2),
            tok(TokenKind::Num(2), 1, 3),
        ]
    );
}

#[test]
fn comments_and_whitespace_interleave() {
    assert_eq!(
        tokenize("  // one\n\t// two\n   y"),
        vec![tok(TokenKind::Ident("y"), 3, 4)]
    );
}

#[test]
fn out_of_range_number_is_zero() {
    assert_eq!(tokenize("9999999999"), vec![tok(TokenKind::Num(0), 1, 1)]);
}

#[test]
fn largest_number_is_kept() {
    assert_eq!(tokenize("2147483647"), vec![tok(TokenKind::Num(2147483647), 1, 1)]);
    assert_eq!(tokenize("2147483648"), vec![tok(TokenKind::Num(0), 1, 1)]);
    assert_eq!(tokenize("007"), vec![tok(TokenKind::Num(7), 1, 1)]);
}

#[test]
fn number_run_stops_at_non_decimal_digit() {
    // a superscript two is no decimal digit: the literal ends before it,
    // and the scan stops there
    let mut lexer = Lexer::new("1\u{b2} 3");
    assert_eq!(lexer.next(), Some(tok(TokenKind::Num(1), 1, 1)));
    assert_eq!(lexer.peek(), Some(' '));
    assert_eq!(lexer.next(), None);
    assert_eq!(lexer.next(), None);
    assert_eq!(tokenize("1\u{b2}"), vec![tok(TokenKind::Num(1), 1, 1)]);
}

#[test]
fn bracketed_numbers_at_the_limit() {
    assert_eq!(
        kinds(&tokenize("(2147483647)")),
        vec![TokenKind::OpeningBracket, TokenKind::Num(2147483647), TokenKind::ClosingBracket]
    );
    assert_eq!(
        kinds(&tokenize("(2147483648)")),
        vec![TokenKind::OpeningBracket, TokenKind::Num(0), TokenKind::ClosingBracket]
    );
}

#[test]
fn unrecognized_character_ends_the_scan() {
    let mut lexer = Lexer::new("a $ b");
    assert_eq!(lexer.next(), Some(tok(TokenKind::Ident("a"), 1, 1)));
    assert_eq!(lexer.next(), None);
    assert_eq!(lexer.next(), None);
    assert!(!lexer.is_over());
    assert_eq!(tokenize("a $ b").len(), 1);
}

#[test]
fn nul_character_counts_as_over() {
    let lexer = Lexer::new("\0a");
    assert!(lexer.is_over());
    assert!(tokenize("\0a").is_empty());
}

#[test]
fn rescanning_gives_the_same_tokens() {
    let source = "alpha = (beta + 12) % 7 // note\n<> gamma";
    assert_eq!(tokenize(source), tokenize(source));
    let mut a = Lexer::new(source);
    let mut b = Lexer::new(source);
    loop {
        let x = a.next();
        assert_eq!(x, b.next());
        if x.is_none() {
            break;
        }
    }
}

#[test]
fn identifier_text_is_the_consumed_range() {
    let source = "h\u{e9}llo w\u{f6}rld_2 x";
    let tokens = tokenize(source);
    let texts: Vec<&str> = tokens
        .iter()
        .map(|t| match t.kind {
            TokenKind::Ident(s) => s,
            _ => panic!("identifier expected"),
        })
        .collect();
    assert_eq!(texts, vec!["h\u{e9}llo", "w\u{f6}rld_2", "x"]);
    // each text borrows the source at the byte range it covers
    let base = source.as_ptr() as usize;
    let starts: Vec<usize> = texts.iter().map(|s| s.as_ptr() as usize - base).collect();
    assert_eq!(starts, vec![0, 7, 16]);
    for (text, start) in texts.iter().zip(starts) {
        assert_eq!(&source[start..start + text.len()], *text);
    }
    assert_eq!(tokens[1].position, (1, 7));
    assert_eq!(tokens[2].position, (1, 15));
}

#[test]
fn wide_whitespace_keeps_offsets_aligned() {
    // a no-break space takes two bytes and is whitespace
    assert_eq!(
        tokenize("\u{a0}ab \u{3000}cd"),
        vec![
            tok(TokenKind::Ident("ab"), 1, 2),
            tok(TokenKind::Ident("cd"), 1, 6),
        ]
    );
}

#[test]
fn identifier_before_foreign_symbol() {
    assert_eq!(tokenize("a\u{20ac}"), vec![tok(TokenKind::Ident("a"), 1, 1)]);
}

#[test]
fn positions_increase_along_the_scan() {
    let source = "a b\n  c\n\nd(e)";
    let tokens = tokenize(source);
    let positions: Vec<(usize, usize)> = tokens.iter().map(|t| t.position).collect();
    assert_eq!(positions, vec![(1, 1), (1, 3), (2, 3), (4, 1), (4, 2), (4, 3), (4, 4)]);
    for w in positions.windows(2) {
        assert!(w[0].0 < w[1].0 || (w[0].0 == w[1].0 && w[0].1 < w[1].1));
    }
}

#[test]
fn leading_line_feed_starts_row_two() {
    assert_eq!(tokenize("\nab"), vec![tok(TokenKind::Ident("ab"), 2, 1)]);
}

#[test]
fn cursor_moves_one_character_at_a_time() {
    let mut lexer = Lexer::new("a\u{e9}\nb");
    assert_eq!(lexer.pos(), (1, 1));
    assert_eq!(lexer.peek(), Some('\u{e9}'));
    assert_eq!(lexer.next_char(), Some('\u{e9}'));
    assert_eq!(lexer.pos(), (1, 2));
    assert_eq!(lexer.next_char(), Some('\n'));
    assert_eq!(lexer.pos(), (1, 3));
    assert_eq!(lexer.peek(), Some('b'));
    assert_eq!(lexer.next_char(), Some('b'));
    assert_eq!(lexer.pos(), (2, 1));
    assert_eq!(lexer.peek(), None);
    assert!(!lexer.is_over());
    assert_eq!(lexer.next_char(), None);
    assert!(lexer.is_over());
    assert_eq!(lexer.pos(), (2, 2));
    assert_eq!(lexer.next_char(), None);
    assert_eq!(lexer.pos(), (2, 2));
}

#[test]
fn pull_after_cursor_moves() {
    let mut lexer = Lexer::new("xy<=z");
    assert_eq!(lexer.next_char(), Some('y'));
    assert_eq!(lexer.next(), Some(tok(TokenKind::Ident("y"), 1, 2)));
    assert_eq!(lexer.next(), Some(tok(TokenKind::Opr(Op::LessOrEqual), 1, 3)));
    assert_eq!(lexer.next(), Some(tok(TokenKind::Ident("z"), 1, 5)));
    assert_eq!(lexer.next(), None);
}

#[test]
fn escapes_that_are_implemented() {
    let mut lexer = Lexer::new("");
    assert_eq!(lexer.unicode_escape('n'), Some('\n'));
    assert_eq!(lexer.unicode_escape('t'), Some('\t'));
    assert_eq!(lexer.unicode_escape('r'), Some('\r'));
    assert_eq!(lexer.unicode_escape('q'), Some('q'));
    assert_eq!(lexer.unicode_escape('\\'), Some('\\'));
}

#[test]
fn dispatch_on_the_lookahead() {
    assert_eq!(classify('x', '1'), Start::Ident);
    assert_eq!(classify('_', ' '), Start::Ident);
    assert_eq!(classify('7', 'a'), Start::Number);
    assert_eq!(classify('/', '/'), Start::Comment);
    assert_eq!(classify('/', '2'), Start::Opr(Op::Divide));
    assert_eq!(classify('>', '='), Start::Opr(Op::GreaterOrEqual));
    assert_eq!(classify('>', '>'), Start::Opr(Op::Greater));
    assert_eq!(classify('<', '='), Start::Opr(Op::LessOrEqual));
    assert_eq!(classify('<', '>'), Start::Opr(Op::NotEqual));
    assert_eq!(classify('<', '\0'), Start::Opr(Op::Less));
    assert_eq!(classify('=', '='), Start::Opr(Op::Equal));
    assert_eq!(classify('(', ')'), Start::OpeningBracket);
    assert_eq!(classify(')', '('), Start::ClosingBracket);
    assert_eq!(classify('\u{e9}', 'a'), Start::Nothing);
    assert_eq!(classify('\0', '\0'), Start::Nothing);
}
