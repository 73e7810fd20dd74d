use cvadroscript::lexer::{
    char_in_class, glyphs_of, scan, scan_glyphs, tokenize, tokenize_glyphs, CharClass, LexError,
    LexErrorKind, Lexer, Scanned, Token,
};
use cvadroscript::text::{classify, Glyph};

fn ident(name: &str) -> Token {
    Token::Ident(name.to_string())
}

#[test]
fn lex_empty_text_is_a_single_eof() {
    assert_eq!(tokenize(""), Ok(vec![Token::EOF]));
}

#[test]
fn lex_blank_text_is_a_single_eof() {
    assert_eq!(tokenize("   \t  "), Ok(vec![Token::EOF]));
}

#[test]
fn lex_binding_of_a_sum() {
    assert_eq!(
        tokenize("let x = 1 + 2"),
        Ok(vec![
            Token::Let,
            ident("x"),
            Token::Eq,
            Token::Int(1),
            Token::Plus,
            Token::Int(2),
            Token::EOF,
        ])
    );
}

#[test]
fn lex_tokens_end_with_eof_and_hold_no_other() {
    for text in ["", "a", "a b c", "x = (1 + 2) * 3\n", "def f() -> int:\n    return 1\n", "# only a comment"] {
        let tokens = tokenize(text).unwrap();
        assert!(tokens.len() >= 1);
        assert_eq!(tokens[tokens.len() - 1], Token::EOF);
        for t in &tokens[..tokens.len() - 1] {
            assert_ne!(*t, Token::EOF);
        }
    }
}

#[test]
fn lex_every_keyword_has_its_token() {
    assert_eq!(
        tokenize("def if else while for in return let extern struct pass and or not True False"),
        Ok(vec![
            Token::Def,
            Token::If,
            Token::Else,
            Token::While,
            Token::For,
            Token::In,
            Token::Return,
            Token::Let,
            Token::Extern,
            Token::Struct,
            Token::Pass,
            Token::And,
            Token::Or,
            Token::Not,
            Token::True,
            Token::False,
            Token::EOF,
        ])
    );
}

#[test]
fn lex_keywords_are_case_sensitive_and_whole_words() {
    assert_eq!(
        tokenize("Def true false defx _if in_"),
        Ok(vec![
            ident("Def"),
            ident("true"),
            ident("false"),
            ident("defx"),
            ident("_if"),
            ident("in_"),
            Token::EOF,
        ])
    );
}

#[test]
fn lex_identifiers_take_letters_digits_and_underscores() {
    assert_eq!(
        tokenize("_a1 b_2_c x9"),
        Ok(vec![ident("_a1"), ident("b_2_c"), ident("x9"), Token::EOF])
    );
}

#[test]
fn lex_identifiers_may_hold_letters_beyond_ascii() {
    assert_eq!(tokenize("été"), Ok(vec![ident("été"), Token::EOF]));
    assert_eq!(
        tokenize("имя = 1"),
        Ok(vec![ident("имя"), Token::Eq, Token::Int(1), Token::EOF])
    );
}

#[test]
fn lex_every_operator_has_its_token() {
    assert_eq!(
        tokenize("+ - * / % = == != < > <= >= ( ) : , ->"),
        Ok(vec![
            Token::Plus,
            Token::Minus,
            Token::Star,
            Token::Slash,
            Token::Percent,
            Token::Eq,
            Token::EqEq,
            Token::Ne,
            Token::Lt,
            Token::Gt,
            Token::Le,
            Token::Ge,
            Token::LParen,
            Token::RParen,
            Token::Colon,
            Token::Comma,
            Token::Arrow,
            Token::EOF,
        ])
    );
}

#[test]
fn lex_two_character_operators_need_no_space() {
    assert_eq!(
        tokenize("a<=b>=c==d!=e->f"),
        Ok(vec![
            ident("a"),
            Token::Le,
            ident("b"),
            Token::Ge,
            ident("c"),
            Token::EqEq,
            ident("d"),
            Token::Ne,
            ident("e"),
            Token::Arrow,
            ident("f"),
            Token::EOF,
        ])
    );
}

#[test]
fn lex_three_equal_signs_are_two_tokens() {
    assert_eq!(tokenize("==="), Ok(vec![Token::EqEq, Token::Eq, Token::EOF]));
}

#[test]
fn lex_operator_at_the_end_of_the_text() {
    assert_eq!(tokenize("-"), Ok(vec![Token::Minus, Token::EOF]));
    assert_eq!(tokenize("<"), Ok(vec![Token::Lt, Token::EOF]));
    assert_eq!(tokenize(">"), Ok(vec![Token::Gt, Token::EOF]));
    assert_eq!(tokenize("="), Ok(vec![Token::Eq, Token::EOF]));
}

#[test]
fn lex_integers() {
    assert_eq!(tokenize("0"), Ok(vec![Token::Int(0), Token::EOF]));
    assert_eq!(tokenize("007"), Ok(vec![Token::Int(7), Token::EOF]));
    assert_eq!(tokenize("1234567890"), Ok(vec![Token::Int(1234567890), Token::EOF]));
}

#[test]
fn lex_largest_integer_fits() {
    assert_eq!(
        tokenize("9223372036854775807"),
        Ok(vec![Token::Int(i64::MAX), Token::EOF])
    );
}

#[test]
fn lex_integer_beyond_64_bits_is_malformed() {
    assert_eq!(
        tokenize("9223372036854775808"),
        Err(LexError { kind: LexErrorKind::MalformedNumber, pos: 0 })
    );
    assert_eq!(
        tokenize("x = 99999999999999999999999"),
        Err(LexError { kind: LexErrorKind::MalformedNumber, pos: 4 })
    );
}

#[test]
fn lex_floats_keep_their_text() {
    assert_eq!(tokenize("3.14"), Ok(vec![Token::Float("3.14".to_string()), Token::EOF]));
    assert_eq!(tokenize("1.0"), Ok(vec![Token::Float("1.0".to_string()), Token::EOF]));
    assert_eq!(tokenize("2."), Ok(vec![Token::Float("2.".to_string()), Token::EOF]));
}

#[test]
fn lex_float_with_many_digits_is_not_malformed() {
    assert_eq!(
        tokenize("99999999999999999999999.5"),
        Ok(vec![Token::Float("99999999999999999999999.5".to_string()), Token::EOF])
    );
}

#[test]
fn lex_second_decimal_point_is_unexpected() {
    assert_eq!(
        tokenize("1.2.3"),
        Err(LexError { kind: LexErrorKind::UnexpectedCharacter, pos: 3 })
    );
}

#[test]
fn lex_number_then_word() {
    assert_eq!(tokenize("12abc"), Ok(vec![Token::Int(12), ident("abc"), Token::EOF]));
}

#[test]
fn lex_strings_in_either_quote() {
    assert_eq!(
        tokenize("\"abc\" 'de f'"),
        Ok(vec![
            Token::String("abc".to_string()),
            Token::String("de f".to_string()),
            Token::EOF,
        ])
    );
}

#[test]
fn lex_empty_string() {
    assert_eq!(tokenize("\"\""), Ok(vec![Token::String(String::new()), Token::EOF]));
}

#[test]
fn lex_other_quote_inside_a_string() {
    assert_eq!(
        tokenize("\"it's\" '\"'"),
        Ok(vec![
            Token::String("it's".to_string()),
            Token::String("\"".to_string()),
            Token::EOF,
        ])
    );
}

#[test]
fn lex_escapes_are_decoded() {
    assert_eq!(
        tokenize("\"a\\nb\\tc\\rd\\\\e\\\"f\\'g\""),
        Ok(vec![Token::String("a\nb\tc\rd\\e\"f'g".to_string()), Token::EOF])
    );
}

#[test]
fn lex_unknown_escape_passes_the_character_through() {
    assert_eq!(
        tokenize("\"a\\qb\\0\""),
        Ok(vec![Token::String("aqb0".to_string()), Token::EOF])
    );
}

#[test]
fn lex_string_may_span_lines() {
    assert_eq!(
        tokenize("\"a\n  b\""),
        Ok(vec![Token::String("a\n  b".to_string()), Token::EOF])
    );
}

#[test]
fn lex_unterminated_string_is_an_error() {
    assert_eq!(
        tokenize("\"abc"),
        Err(LexError { kind: LexErrorKind::UnterminatedString, pos: 0 })
    );
}

#[test]
fn lex_unterminated_string_after_other_tokens() {
    assert_eq!(
        tokenize("x = 'abc"),
        Err(LexError { kind: LexErrorKind::UnterminatedString, pos: 4 })
    );
}

#[test]
fn lex_string_ending_in_a_backslash_is_unterminated() {
    assert_eq!(
        tokenize("\"abc\\"),
        Err(LexError { kind: LexErrorKind::UnterminatedString, pos: 0 })
    );
    assert_eq!(
        tokenize("\"abc\\\""),
        Err(LexError { kind: LexErrorKind::UnterminatedString, pos: 0 })
    );
}

#[test]
fn lex_wrong_closing_quote_is_unterminated() {
    assert_eq!(
        tokenize("\"abc'"),
        Err(LexError { kind: LexErrorKind::UnterminatedString, pos: 0 })
    );
}

#[test]
fn lex_lone_bang_is_an_error() {
    assert_eq!(tokenize("!"), Err(LexError { kind: LexErrorKind::LoneBang, pos: 0 }));
    assert_eq!(tokenize("a ! b"), Err(LexError { kind: LexErrorKind::LoneBang, pos: 2 }));
    assert_eq!(tokenize("!x"), Err(LexError { kind: LexErrorKind::LoneBang, pos: 0 }));
}

#[test]
fn lex_unknown_character_is_an_error() {
    assert_eq!(
        tokenize("a $ b"),
        Err(LexError { kind: LexErrorKind::UnexpectedCharacter, pos: 2 })
    );
    assert_eq!(
        tokenize("x = [1]"),
        Err(LexError { kind: LexErrorKind::UnexpectedCharacter, pos: 4 })
    );
    assert_eq!(
        tokenize("."),
        Err(LexError { kind: LexErrorKind::UnexpectedCharacter, pos: 0 })
    );
}

#[test]
fn lex_error_positions_count_characters_not_bytes() {
    assert_eq!(
        tokenize("é = ?"),
        Err(LexError { kind: LexErrorKind::UnexpectedCharacter, pos: 4 })
    );
}

#[test]
fn lex_comment_runs_to_the_end_of_the_line() {
    assert_eq!(
        tokenize("a # b c\nd"),
        Ok(vec![ident("a"), Token::Newline, ident("d"), Token::EOF])
    );
}

#[test]
fn lex_comment_at_the_end_of_the_text() {
    assert_eq!(tokenize("a # b c"), Ok(vec![ident("a"), Token::EOF]));
    assert_eq!(tokenize("#"), Ok(vec![Token::EOF]));
}

#[test]
fn lex_comment_may_hold_anything() {
    assert_eq!(tokenize("# ! $ \"abc"), Ok(vec![Token::EOF]));
}

#[test]
fn lex_white_space_beyond_ascii_is_skipped() {
    assert_eq!(
        tokenize("a\u{00A0}b\u{3000}c\r"),
        Ok(vec![ident("a"), ident("b"), ident("c"), Token::EOF])
    );
}

#[test]
fn lex_line_break_at_the_same_margin_is_a_newline() {
    assert_eq!(
        tokenize("a\nb\nc"),
        Ok(vec![ident("a"), Token::Newline, ident("b"), Token::Newline, ident("c"), Token::EOF])
    );
}

#[test]
fn lex_trailing_line_break_is_a_newline() {
    assert_eq!(tokenize("a\n"), Ok(vec![ident("a"), Token::Newline, Token::EOF]));
}

#[test]
fn lex_wider_margin_is_an_indent() {
    assert_eq!(
        tokenize("a\n    b"),
        Ok(vec![ident("a"), Token::Indent, ident("b"), Token::EOF])
    );
}

#[test]
fn lex_tabs_count_one_each() {
    assert_eq!(
        tokenize("a\n\tb\n c"),
        Ok(vec![ident("a"), Token::Indent, ident("b"), Token::Newline, ident("c"), Token::EOF])
    );
}

#[test]
fn lex_rising_and_falling_margins_match() {
    let tokens = tokenize("a\n  b\n    c\n  d\ne").unwrap();
    assert_eq!(
        tokens,
        vec![
            ident("a"),
            Token::Indent,
            ident("b"),
            Token::Indent,
            ident("c"),
            Token::Dedent,
            ident("d"),
            Token::Dedent,
            ident("e"),
            Token::EOF,
        ]
    );
    let mut depth: i64 = 0;
    for t in &tokens {
        match t {
            Token::Indent => depth += 1,
            Token::Dedent => depth -= 1,
            _ => {}
        }
        assert!(depth >= 0);
    }
    assert_eq!(depth, 0);
}

#[test]
fn lex_one_line_break_closes_one_level() {
    assert_eq!(
        tokenize("a\n  b\n    c\nd\ne\nf"),
        Ok(vec![
            ident("a"),
            Token::Indent,
            ident("b"),
            Token::Indent,
            ident("c"),
            Token::Dedent,
            ident("d"),
            Token::Dedent,
            ident("e"),
            Token::Newline,
            ident("f"),
            Token::EOF,
        ])
    );
}

#[test]
fn lex_blank_line_inside_a_block_closes_it() {
    assert_eq!(
        tokenize("a\n  b\n\n  c"),
        Ok(vec![
            ident("a"),
            Token::Indent,
            ident("b"),
            Token::Dedent,
            Token::Indent,
            ident("c"),
            Token::EOF,
        ])
    );
}

#[test]
fn lex_text_that_ends_inside_a_block_leaves_it_open() {
    assert_eq!(
        tokenize("if x:\n    pass"),
        Ok(vec![Token::If, ident("x"), Token::Colon, Token::Indent, Token::Pass, Token::EOF])
    );
}

#[test]
fn lex_function_definition() {
    assert_eq!(
        tokenize("def add(a: int, b: int) -> int:\n    return a + b\n"),
        Ok(vec![
            Token::Def,
            ident("add"),
            Token::LParen,
            ident("a"),
            Token::Colon,
            ident("int"),
            Token::Comma,
            ident("b"),
            Token::Colon,
            ident("int"),
            Token::RParen,
            Token::Arrow,
            ident("int"),
            Token::Colon,
            Token::Indent,
            Token::Return,
            ident("a"),
            Token::Plus,
            ident("b"),
            Token::Dedent,
            Token::EOF,
        ])
    );
}

#[test]
fn lex_next_token_gives_eof_again_and_again() {
    let mut lexer = Lexer::new("a");
    assert_eq!(lexer.next_token(), Ok(ident("a")));
    assert_eq!(lexer.next_token(), Ok(Token::EOF));
    assert_eq!(lexer.next_token(), Ok(Token::EOF));
    assert_eq!(lexer.next_token(), Ok(Token::EOF));
}

#[test]
fn lex_next_token_repeats_an_error() {
    let mut lexer = Lexer::new("a ?");
    assert_eq!(lexer.next_token(), Ok(ident("a")));
    let e = Err(LexError { kind: LexErrorKind::UnexpectedCharacter, pos: 2 });
    assert_eq!(lexer.next_token(), e);
    assert_eq!(lexer.next_token(), e);
}

#[test]
fn lex_next_token_repeats_an_unterminated_string() {
    let mut lexer = Lexer::new("'ab");
    let e = Err(LexError { kind: LexErrorKind::UnterminatedString, pos: 0 });
    assert_eq!(lexer.next_token(), e);
    assert_eq!(lexer.next_token(), e);
}

#[test]
fn lex_current_and_advance_walk_the_text() {
    let mut lexer = Lexer::new("ab");
    assert_eq!(lexer.current(), Some('a'));
    lexer.advance();
    assert_eq!(lexer.current(), Some('b'));
    lexer.advance();
    assert_eq!(lexer.current(), None);
}

#[test]
fn lex_skip_whitespace_stops_at_a_line_break() {
    let mut lexer = Lexer::new("  \t\nx");
    lexer.skip_whitespace();
    assert_eq!(lexer.current(), Some('\n'));
}

#[test]
fn lex_skip_comment_stops_at_a_line_break() {
    let mut lexer = Lexer::new("# abc\nx");
    lexer.skip_comment();
    assert_eq!(lexer.current(), Some('\n'));
    let mut lexer = Lexer::new("# abc");
    lexer.skip_comment();
    assert_eq!(lexer.current(), None);
}

#[test]
fn lex_handle_indent_reads_the_margin() {
    let mut lexer = Lexer::new("\n   x");
    assert_eq!(lexer.handle_indent(), Token::Indent);
    assert_eq!(lexer.current(), Some('x'));
}

#[test]
fn lex_read_identifier_stops_at_the_word_end() {
    let mut lexer = Lexer::new("while1 x");
    assert_eq!(lexer.read_identifier(), ident("while1"));
    assert_eq!(lexer.current(), Some(' '));
    let mut lexer = Lexer::new("while x");
    assert_eq!(lexer.read_identifier(), Token::While);
}

#[test]
fn lex_read_number_stops_after_the_digits() {
    let mut lexer = Lexer::new("42+");
    assert_eq!(lexer.read_number(), Ok(Token::Int(42)));
    assert_eq!(lexer.current(), Some('+'));
    let mut lexer = Lexer::new("4.25+");
    assert_eq!(lexer.read_number(), Ok(Token::Float("4.25".to_string())));
    assert_eq!(lexer.current(), Some('+'));
}

#[test]
fn lex_read_string_stops_after_the_closing_quote() {
    let mut lexer = Lexer::new("'a'b");
    assert_eq!(lexer.read_string(), Ok(Token::String("a".to_string())));
    assert_eq!(lexer.current(), Some('b'));
}

#[test]
fn lex_two_character_readers() {
    assert_eq!(Lexer::new("->").read_minus_or_arrow(), Token::Arrow);
    assert_eq!(Lexer::new("-x").read_minus_or_arrow(), Token::Minus);
    assert_eq!(Lexer::new("==").read_equals(), Token::EqEq);
    assert_eq!(Lexer::new("=x").read_equals(), Token::Eq);
    assert_eq!(Lexer::new("!=").read_not_equals(), Ok(Token::Ne));
    assert_eq!(
        Lexer::new("!x").read_not_equals(),
        Err(LexError { kind: LexErrorKind::LoneBang, pos: 0 })
    );
    assert_eq!(Lexer::new("<=").read_less(), Token::Le);
    assert_eq!(Lexer::new("<x").read_less(), Token::Lt);
    assert_eq!(Lexer::new(">=").read_greater(), Token::Ge);
    assert_eq!(Lexer::new(">x").read_greater(), Token::Gt);
}

#[test]
fn lex_next_is_looks_one_character_ahead() {
    let lexer = Lexer::new("ab");
    assert!(lexer.next_is('b'));
    assert!(!lexer.next_is('a'));
    assert!(!Lexer::new("a").next_is('a'));
}

#[test]
fn lex_word_is_and_slice_text() {
    let lexer = Lexer::new("let x");
    assert!(lexer.word_is(0, 3, "let"));
    assert!(!lexer.word_is(0, 3, "lex"));
    assert!(!lexer.word_is(0, 2, "let"));
    assert!(!lexer.word_is(0, 5, "let"));
    assert_eq!(lexer.slice_text(4, 5), "x".to_string());
    assert_eq!(lexer.slice_text(2, 2), String::new());
}

#[test]
fn lex_character_classes() {
    let class = |k: CharClass, c: char| char_in_class(k, classify(c));
    assert!(class(CharClass::Blank, ' '));
    assert!(class(CharClass::Blank, '\t'));
    assert!(class(CharClass::Blank, '\r'));
    assert!(!class(CharClass::Blank, '\n'));
    assert!(!class(CharClass::Blank, 'a'));
    assert!(class(CharClass::Word, 'a'));
    assert!(class(CharClass::Word, '7'));
    assert!(class(CharClass::Word, '_'));
    assert!(class(CharClass::Word, 'é'));
    assert!(!class(CharClass::Word, '-'));
    assert!(class(CharClass::Digit, '0'));
    assert!(class(CharClass::Digit, '9'));
    assert!(!class(CharClass::Digit, 'a'));
    assert!(!class(CharClass::Digit, '٣'));
    assert!(class(CharClass::Margin, ' '));
    assert!(class(CharClass::Margin, '\t'));
    assert!(!class(CharClass::Margin, '\r'));
    assert!(class(CharClass::Comment, '#'));
    assert!(!class(CharClass::Comment, '\n'));
}

#[test]
fn lex_classes_come_from_the_glyph_not_the_character() {
    let plain = |c: char| Glyph { ch: c, alphabetic: false, alphanumeric: false, whitespace: false };
    assert!(!char_in_class(CharClass::Blank, plain(' ')));
    assert!(!char_in_class(CharClass::Word, plain('a')));
    assert!(char_in_class(CharClass::Word, plain('_')));
    assert!(char_in_class(CharClass::Digit, plain('5')));
    assert!(char_in_class(CharClass::Margin, plain(' ')));
    let blank_line_feed = Glyph { ch: '\n', alphabetic: false, alphanumeric: false, whitespace: true };
    assert!(!char_in_class(CharClass::Blank, blank_line_feed));
}

#[test]
fn lex_classify_asks_unicode() {
    assert_eq!(
        classify('a'),
        Glyph { ch: 'a', alphabetic: true, alphanumeric: true, whitespace: false }
    );
    assert_eq!(
        classify('7'),
        Glyph { ch: '7', alphabetic: false, alphanumeric: true, whitespace: false }
    );
    assert_eq!(
        classify(' '),
        Glyph { ch: ' ', alphabetic: false, alphanumeric: false, whitespace: true }
    );
    assert_eq!(
        classify('\n'),
        Glyph { ch: '\n', alphabetic: false, alphanumeric: false, whitespace: true }
    );
    assert_eq!(
        classify('+'),
        Glyph { ch: '+', alphabetic: false, alphanumeric: false, whitespace: false }
    );
    assert_eq!(
        classify('я'),
        Glyph { ch: 'я', alphabetic: true, alphanumeric: true, whitespace: false }
    );
    assert_eq!(
        classify('½'),
        Glyph { ch: '½', alphabetic: false, alphanumeric: true, whitespace: false }
    );
}

#[test]
fn lex_glyphs_of_keeps_the_characters_in_order() {
    let source = glyphs_of("a 1");
    assert_eq!(source, vec![classify('a'), classify(' '), classify('1')]);
    assert_eq!(glyphs_of(""), vec![]);
}

#[test]
fn lex_tokenize_glyphs_goes_by_the_classes_given() {
    let plain = |c: char| Glyph { ch: c, alphabetic: false, alphanumeric: false, whitespace: false };
    let letter = |c: char| Glyph { ch: c, alphabetic: true, alphanumeric: true, whitespace: false };
    let blank = |c: char| Glyph { ch: c, alphabetic: false, alphanumeric: false, whitespace: true };
    // `$` taken for a letter and `~` for white space: one word, then a number.
    assert_eq!(
        tokenize_glyphs(vec![letter('$'), letter('a'), blank('~'), plain('4'), plain('2')]),
        Ok(vec![ident("$a"), Token::Int(42), Token::EOF])
    );
    // A letter that is not taken for one starts no token.
    assert_eq!(
        tokenize_glyphs(vec![plain('a')]),
        Err(LexError { kind: LexErrorKind::UnexpectedCharacter, pos: 0 })
    );
    // An unclassified space is no white space.
    assert_eq!(
        tokenize_glyphs(vec![plain('1'), plain(' '), plain('2')]),
        Err(LexError { kind: LexErrorKind::UnexpectedCharacter, pos: 1 })
    );
    // A word goes on over what is alphanumeric only.
    let digit = |c: char| Glyph { ch: c, alphabetic: false, alphanumeric: true, whitespace: false };
    assert_eq!(
        tokenize_glyphs(vec![letter('x'), digit('1'), plain('2')]),
        Ok(vec![ident("x1"), Token::Int(2), Token::EOF])
    );
}

#[test]
fn lex_tokenize_is_tokenize_glyphs_of_the_classified_text() {
    for text in ["let x = 1 + 2", "a\n  b\n", "\"abc", "été = 'x' # c", "1.5 != 2 !"] {
        assert_eq!(tokenize(text), tokenize_glyphs(glyphs_of(text)));
    }
}

#[test]
fn lex_token_kinds() {
    assert!(Token::Plus.same_kind(&Token::Plus));
    assert!(!Token::Plus.same_kind(&Token::Minus));
    assert!(ident("a").same_kind(&ident("b")));
    assert!(Token::Int(1).same_kind(&Token::Int(2)));
    assert!(!Token::Int(1).same_kind(&Token::Float("1.".to_string())));
    assert!(Token::String("a".to_string()).same_kind(&Token::String(String::new())));
    assert!(!ident("a").same_kind(&Token::String("a".to_string())));
    assert!(Token::EOF.same_kind(&Token::EOF));
}

#[test]
fn lex_token_clone_is_equal() {
    for t in [ident("a"), Token::Int(-3), Token::Float("1.5".to_string()), Token::String("s".to_string()), Token::Arrow, Token::EOF] {
        assert_eq!(t.clone(), t);
    }
}

#[test]
fn lex_scan_tells_where_each_token_starts() {
    assert_eq!(
        scan("let  x = 10 # c"),
        Ok(Scanned {
            tokens: vec![Token::Let, ident("x"), Token::Eq, Token::Int(10), Token::EOF],
            starts: vec![0, 5, 7, 9, 15],
        })
    );
}

#[test]
fn lex_scan_of_empty_text() {
    assert_eq!(scan(""), Ok(Scanned { tokens: vec![Token::EOF], starts: vec![0] }));
    assert_eq!(scan("   "), Ok(Scanned { tokens: vec![Token::EOF], starts: vec![3] }));
}

#[test]
fn lex_line_break_tokens_start_at_the_line_feed() {
    assert_eq!(
        scan("a\n  b\nc"),
        Ok(Scanned {
            tokens: vec![
                ident("a"),
                Token::Indent,
                ident("b"),
                Token::Dedent,
                ident("c"),
                Token::EOF,
            ],
            starts: vec![0, 1, 4, 5, 6, 7],
        })
    );
}

#[test]
fn lex_starts_are_in_order_and_as_many_as_the_tokens() {
    for text in ["", "a b  c", "f(1, 'two', 3.0) # x\n  y\nz", "\n\n\n"] {
        let scanned = scan(text).unwrap();
        assert_eq!(scanned.starts.len(), scanned.tokens.len());
        for w in scanned.starts.windows(2) {
            assert!(w[0] <= w[1]);
        }
        assert!(*scanned.starts.last().unwrap() <= text.chars().count());
        assert_eq!(Ok(scanned.tokens), tokenize(text));
    }
}

#[test]
fn lex_scan_reports_the_first_error() {
    assert_eq!(scan("a ? !"), Err(LexError { kind: LexErrorKind::UnexpectedCharacter, pos: 2 }));
    assert_eq!(scan("a"), scan_glyphs(glyphs_of("a")));
}

#[test]
fn lex_skip_to_token_passes_blanks_and_a_comment() {
    let mut lexer = Lexer::new("  # c\nx");
    assert_eq!(lexer.offset(), 0);
    lexer.skip_to_token();
    assert_eq!(lexer.offset(), 5);
    assert_eq!(lexer.current(), Some('\n'));
    lexer.skip_to_token();
    assert_eq!(lexer.offset(), 5);
    let mut lexer = Lexer::new("  x");
    lexer.skip_to_token();
    assert_eq!(lexer.offset(), 2);
}
