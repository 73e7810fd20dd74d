//! The lexer: turns source text into tokens, deriving `Indent`, `Dedent`
//! and `Newline` from the whitespace that opens each line.
//!
//! `lex_token` says which token starts at a position and where the lexer
//! stands after it; `lex_all` runs it to the end of the text.

use crate::text::{classify, decimal_value, glyph_of, is_decimal_digit, is_digit, Glyph};
pub use crate::token::{tokens_view, Token, TokenView};
use vstd::prelude::*;
use vstd::string::*;

verus! {

/// Why a text cannot be split into tokens.
#[derive(Debug, Clone, Copy, PartialEq, Eq, Structural)]
pub enum LexErrorKind {
    /// An integer literal that does not fit in 64 bits.
    MalformedNumber,
    /// A string literal that the text ends inside.
    UnterminatedString,
    /// A character that starts no token.
    UnexpectedCharacter,
    /// A `!` that is not followed by `=`.
    LoneBang,
}

/// A lexical error and the position, in characters, of the text it is about.
#[derive(Debug, Clone, Copy, PartialEq, Eq, Structural)]
pub struct LexError {
    pub kind: LexErrorKind,
    pub pos: usize,
}

/// The model of a lexical error.
pub struct LexFault {
    pub kind: LexErrorKind,
    pub at: int,
}

impl View for LexError {
    type V = LexFault;

    open spec fn view(&self) -> LexFault {
        LexFault { kind: self.kind, at: self.pos as int }
    }
}

/// The classes of characters that the lexer reads runs of.
#[derive(Debug, Clone, Copy, PartialEq, Eq, Structural)]
pub enum CharClass {
    /// White space within a line.
    Blank,
    /// What may continue an identifier.
    Word,
    /// Decimal digits.
    Digit,
    /// Spaces and tabs, which make up a line's indentation.
    Margin,
    /// Anything up to the end of the line.
    Comment,
}

/// Whether a character belongs to a class.
pub open spec fn in_class(class: CharClass, g: Glyph) -> bool {
    match class {
        CharClass::Blank => g.whitespace && g.ch != '\n',
        CharClass::Word => g.alphanumeric || g.ch == '_',
        CharClass::Digit => is_digit(g.ch),
        CharClass::Margin => g.ch == ' ' || g.ch == '\t',
        CharClass::Comment => g.ch != '\n',
    }
}

/// The characters of a stretch of source.
pub open spec fn spell(src: Seq<Glyph>) -> Seq<char> {
    Seq::new(src.len(), |i: int| src[i].ch)
}

/// Where the longest run of `class` characters that starts at `pos` ends.
pub open spec fn run_end(src: Seq<Glyph>, pos: int, class: CharClass) -> int
    decreases src.len() - pos,
{
    if 0 <= pos < src.len() && in_class(class, src[pos]) {
        run_end(src, pos + 1, class)
    } else {
        pos
    }
}

/// Where the next token starts: after blanks and, if a `#` follows them,
/// after the rest of that line.
pub open spec fn token_start(src: Seq<Glyph>, pos: int) -> int {
    let p = run_end(src, pos, CharClass::Blank);
    if 0 <= p < src.len() && src[p].ch == '#' {
        run_end(src, p, CharClass::Comment)
    } else {
        p
    }
}

/// The keyword that `text` spells, if any.
pub open spec fn keyword(text: Seq<char>) -> Option<TokenView> {
    if text == "def"@ {
        Some(TokenView::Def)
    } else if text == "if"@ {
        Some(TokenView::If)
    } else if text == "else"@ {
        Some(TokenView::Else)
    } else if text == "while"@ {
        Some(TokenView::While)
    } else if text == "for"@ {
        Some(TokenView::For)
    } else if text == "in"@ {
        Some(TokenView::In)
    } else if text == "return"@ {
        Some(TokenView::Return)
    } else if text == "let"@ {
        Some(TokenView::Let)
    } else if text == "extern"@ {
        Some(TokenView::Extern)
    } else if text == "struct"@ {
        Some(TokenView::Struct)
    } else if text == "pass"@ {
        Some(TokenView::Pass)
    } else if text == "and"@ {
        Some(TokenView::And)
    } else if text == "or"@ {
        Some(TokenView::Or)
    } else if text == "not"@ {
        Some(TokenView::Not)
    } else if text == "True"@ {
        Some(TokenView::True)
    } else if text == "False"@ {
        Some(TokenView::False)
    } else {
        None
    }
}

/// The token of a word: its keyword, or else an identifier.
pub open spec fn word_token(text: Seq<char>) -> TokenView {
    match keyword(text) {
        Some(t) => t,
        None => TokenView::Ident(text),
    }
}

/// The character that stands after a backslash in a string literal.
pub open spec fn unescape(c: char) -> char {
    if c == 'n' {
        '\n'
    } else if c == 't' {
        '\t'
    } else if c == 'r' {
        '\r'
    } else {
        c
    }
}

/// Reads a string literal's body from `pos` on, after `acc`: the decoded
/// text and the position after the closing quote, or `None` if the text
/// ends first.
pub open spec fn scan_string(src: Seq<Glyph>, pos: int, quote: char, acc: Seq<char>) -> Option<
    (Seq<char>, int),
>
    decreases src.len() - pos,
{
    if pos < 0 || pos >= src.len() {
        None
    } else if src[pos].ch == quote {
        Some((acc, pos + 1))
    } else if src[pos].ch == '\\' {
        if pos + 1 >= src.len() {
            None
        } else {
            scan_string(src, pos + 2, quote, acc.push(unescape(src[pos + 1].ch)))
        }
    } else {
        scan_string(src, pos + 1, quote, acc.push(src[pos].ch))
    }
}

/// A token, the position after it and the indentation stack after it.
pub struct Lexed {
    pub token: TokenView,
    pub pos: int,
    pub indents: Seq<int>,
}

/// Whether the character after `p` is `c`.
pub open spec fn followed_by(src: Seq<Glyph>, p: int, c: char) -> bool {
    p + 1 < src.len() && src[p + 1].ch == c
}

/// The token of the line break at `p`: the width of the next line's margin
/// is held against the top of the stack. Wider pushes it and gives
/// `Indent`; narrower pops one level and gives `Dedent`; equal gives `Newline`.
pub open spec fn lex_newline(src: Seq<Glyph>, p: int, indents: Seq<int>) -> Lexed {
    let end = run_end(src, p + 1, CharClass::Margin);
    let width = end - (p + 1);
    if width > indents.last() {
        Lexed { token: TokenView::Indent, pos: end, indents: indents.push(width) }
    } else if width < indents.last() {
        Lexed { token: TokenView::Dedent, pos: end, indents: indents.drop_last() }
    } else {
        Lexed { token: TokenView::Newline, pos: end, indents }
    }
}

/// The word that starts at `p`: its first character and every word
/// character after it.
pub open spec fn lex_word(src: Seq<Glyph>, p: int) -> (TokenView, int) {
    let end = run_end(src, p + 1, CharClass::Word);
    (word_token(spell(src.subrange(p, end))), end)
}

/// The number that starts at `p`: digits, then at most one decimal point
/// with the digits after it. With a point it is a floating-point literal,
/// kept as text; without, an integer, which must fit in 64 bits.
pub open spec fn lex_number(src: Seq<Glyph>, p: int) -> Result<(TokenView, int), LexFault> {
    let int_end = run_end(src, p, CharClass::Digit);
    if int_end < src.len() && src[int_end].ch == '.' {
        let end = run_end(src, int_end + 1, CharClass::Digit);
        Ok((TokenView::Float(spell(src.subrange(p, end))), end))
    } else {
        let value = decimal_value(spell(src.subrange(p, int_end)));
        if value <= i64::MAX {
            Ok((TokenView::Int(value as int), int_end))
        } else {
            Err(LexFault { kind: LexErrorKind::MalformedNumber, at: p })
        }
    }
}

/// The string literal whose opening quote is at `p`.
pub open spec fn lex_string(src: Seq<Glyph>, p: int) -> Result<(TokenView, int), LexFault> {
    match scan_string(src, p + 1, src[p].ch, Seq::empty()) {
        Some((text, end)) => Ok((TokenView::String(text), end)),
        None => Err(LexFault { kind: LexErrorKind::UnterminatedString, at: p }),
    }
}

/// The operator or punctuation mark at `p`.
pub open spec fn lex_operator(src: Seq<Glyph>, p: int) -> Result<(TokenView, int), LexFault> {
    let c = src[p].ch;
    if c == '+' {
        Ok((TokenView::Plus, p + 1))
    } else if c == '-' {
        if followed_by(src, p, '>') {
            Ok((TokenView::Arrow, p + 2))
        } else {
            Ok((TokenView::Minus, p + 1))
        }
    } else if c == '*' {
        Ok((TokenView::Star, p + 1))
    } else if c == '/' {
        Ok((TokenView::Slash, p + 1))
    } else if c == '%' {
        Ok((TokenView::Percent, p + 1))
    } else if c == '=' {
        if followed_by(src, p, '=') {
            Ok((TokenView::EqEq, p + 2))
        } else {
            Ok((TokenView::Eq, p + 1))
        }
    } else if c == '!' {
        if followed_by(src, p, '=') {
            Ok((TokenView::Ne, p + 2))
        } else {
            Err(LexFault { kind: LexErrorKind::LoneBang, at: p })
        }
    } else if c == '<' {
        if followed_by(src, p, '=') {
            Ok((TokenView::Le, p + 2))
        } else {
            Ok((TokenView::Lt, p + 1))
        }
    } else if c == '>' {
        if followed_by(src, p, '=') {
            Ok((TokenView::Ge, p + 2))
        } else {
            Ok((TokenView::Gt, p + 1))
        }
    } else if c == '(' {
        Ok((TokenView::LParen, p + 1))
    } else if c == ')' {
        Ok((TokenView::RParen, p + 1))
    } else if c == ':' {
        Ok((TokenView::Colon, p + 1))
    } else if c == ',' {
        Ok((TokenView::Comma, p + 1))
    } else {
        Err(LexFault { kind: LexErrorKind::UnexpectedCharacter, at: p })
    }
}

/// A token that leaves the indentation stack as it was.
pub open spec fn keeping(r: Result<(TokenView, int), LexFault>, indents: Seq<int>) -> Result<
    Lexed,
    LexFault,
> {
    match r {
        Ok((token, pos)) => Ok(Lexed { token, pos, indents }),
        Err(fault) => Err(fault),
    }
}

/// The next token of `src` for a lexer at `pos` with the stack `indents`.
/// At the end of the text it is `EOF`.
pub open spec fn lex_token(src: Seq<Glyph>, pos: int, indents: Seq<int>) -> Result<
    Lexed,
    LexFault,
> {
    let p = token_start(src, pos);
    if p < 0 || p >= src.len() {
        Ok(Lexed { token: TokenView::EOF, pos: p, indents })
    } else if src[p].ch == '\n' {
        Ok(lex_newline(src, p, indents))
    } else if src[p].alphabetic || src[p].ch == '_' {
        keeping(Ok(lex_word(src, p)), indents)
    } else if is_digit(src[p].ch) {
        keeping(lex_number(src, p), indents)
    } else if src[p].ch == '"' || src[p].ch == '\'' {
        keeping(lex_string(src, p), indents)
    } else {
        keeping(lex_operator(src, p), indents)
    }
}

/// An indentation stack is never empty, starts at zero and grows strictly.
pub open spec fn indents_wf(indents: Seq<int>) -> bool {
    &&& indents.len() >= 1
    &&& indents[0] == 0
    &&& forall|i: int, j: int| 0 <= i < j < indents.len() ==> indents[i] < indents[j]
}

/// A run ends at or after its start and within the text, every character
/// of it is in the class, and the character after it is not.
pub proof fn lemma_run_end(src: Seq<Glyph>, pos: int, class: CharClass)
    requires
        0 <= pos <= src.len(),
    ensures
        pos <= run_end(src, pos, class) <= src.len(),
        forall|i: int| pos <= i < run_end(src, pos, class) ==> in_class(class, #[trigger] src[i]),
        run_end(src, pos, class) < src.len() ==> !in_class(class, src[run_end(src, pos, class)]),
    decreases src.len() - pos,
{
    if pos < src.len() && in_class(class, src[pos]) {
        lemma_run_end(src, pos + 1, class);
    }
}

/// A string literal's body ends after where it starts and within the text.
pub proof fn lemma_scan_string(src: Seq<Glyph>, pos: int, quote: char, acc: Seq<char>)
    requires
        0 <= pos,
    ensures
        scan_string(src, pos, quote, acc) matches Some((_, end)) ==> pos < end <= src.len(),
    decreases src.len() - pos,
{
    if pos < src.len() && src[pos].ch != quote {
        if src[pos].ch == '\\' {
            if pos + 1 < src.len() {
                lemma_scan_string(src, pos + 2, quote, acc.push(unescape(src[pos + 1].ch)));
            }
        } else {
            lemma_scan_string(src, pos + 1, quote, acc.push(src[pos].ch));
        }
    }
}

/// Every token but `EOF` takes at least one character, none reaches past
/// the end of the text, and a well-formed stack stays well-formed.
pub proof fn lemma_lex_token(src: Seq<Glyph>, pos: int, indents: Seq<int>)
    requires
        0 <= pos <= src.len(),
        indents_wf(indents),
    ensures
        lex_token(src, pos, indents) matches Ok(l) ==> {
            &&& pos <= l.pos <= src.len()
            &&& l.token != TokenView::EOF ==> pos < l.pos
            &&& l.token == TokenView::EOF ==> l.pos == src.len()
            &&& indents_wf(l.indents)
        },
        lex_token(src, pos, indents) matches Err(f) ==> pos <= f.at < src.len(),
{
    lemma_run_end(src, pos, CharClass::Blank);
    let b = run_end(src, pos, CharClass::Blank);
    lemma_run_end(src, b, CharClass::Comment);
    let p = token_start(src, pos);
    if p < src.len() {
        lemma_run_end(src, p + 1, CharClass::Margin);
        lemma_run_end(src, p + 1, CharClass::Word);
        lemma_run_end(src, p, CharClass::Digit);
        let int_end = run_end(src, p, CharClass::Digit);
        if int_end < src.len() {
            lemma_run_end(src, int_end + 1, CharClass::Digit);
        }
        lemma_scan_string(src, p + 1, src[p].ch, Seq::empty());
        if src[p].ch == '\n' {
            let l = lex_newline(src, p, indents);
            let width = l.pos - (p + 1);
            if width > indents.last() {
                assert forall|i: int, j: int| 0 <= i < j < l.indents.len() implies l.indents[i]
                    < l.indents[j] by {
                    if j == indents.len() {
                        assert(indents[i] <= indents.last());
                    }
                }
            } else if width < indents.last() {
                assert(indents.len() >= 2);
            }
        }
    }
}

/// The text of a floating-point literal: decimal digits around one
/// decimal point, with at least one digit before it.
pub open spec fn is_float_text(text: Seq<char>) -> bool {
    exists|k: int|
        0 < k < text.len() && #[trigger] text[k] == '.' && forall|i: int|
            0 <= i < text.len() && i != k ==> is_digit(#[trigger] text[i])
}

/// What a token carries is well-formed: an identifier is a word that is
/// no keyword, an integer fits in 64 bits and is not negative, and a
/// floating-point literal is decimal text.
pub open spec fn token_wf(token: TokenView) -> bool {
    match token {
        TokenView::Ident(name) => name.len() >= 1 && keyword(name) is None,
        TokenView::Int(n) => 0 <= n <= i64::MAX,
        TokenView::Float(text) => is_float_text(text),
        _ => true,
    }
}

/// Every token that the lexer reads is well-formed.
pub proof fn lemma_token_wf(src: Seq<Glyph>, pos: int, indents: Seq<int>)
    requires
        0 <= pos <= src.len(),
    ensures
        lex_token(src, pos, indents) matches Ok(l) ==> token_wf(l.token),
{
    lemma_run_end(src, pos, CharClass::Blank);
    let b = run_end(src, pos, CharClass::Blank);
    lemma_run_end(src, b, CharClass::Comment);
    let p = token_start(src, pos);
    if p < src.len() && src[p].ch != '\n' {
        if src[p].alphabetic || src[p].ch == '_' {
            lemma_run_end(src, p + 1, CharClass::Word);
        } else if is_digit(src[p].ch) {
            lemma_run_end(src, p, CharClass::Digit);
            let int_end = run_end(src, p, CharClass::Digit);
            if int_end < src.len() && src[int_end].ch == '.' {
                lemma_run_end(src, int_end + 1, CharClass::Digit);
                let end = run_end(src, int_end + 1, CharClass::Digit);
                let text = spell(src.subrange(p, end));
                let k = int_end - p;
                assert(text[k] == '.');
                assert forall|i: int| 0 <= i < text.len() && i != k implies is_digit(
                    #[trigger] text[i],
                ) by {
                    assert(text[i] == src[p + i].ch);
                    assert(in_class(CharClass::Digit, src[p + i]));
                }
            }
        }
    }
}

/// The tokens of a whole text, where each of them starts, and the
/// indentation stack at the end of the text.
pub struct LexRun {
    pub tokens: Seq<TokenView>,
    pub starts: Seq<int>,
    pub indents: Seq<int>,
}

/// Runs the lexer from `pos` to the end of the text, after the tokens
/// `acc`, which start at `starts`: every token up to and including the
/// first `EOF`.
pub open spec fn lex_all(
    src: Seq<Glyph>,
    pos: int,
    indents: Seq<int>,
    acc: Seq<TokenView>,
    starts: Seq<int>,
) -> Result<LexRun, LexFault>
    decreases src.len() - pos,
    when 0 <= pos <= src.len() && indents_wf(indents)
    via lex_all_terminates
{
    match lex_token(src, pos, indents) {
        Err(fault) => Err(fault),
        Ok(l) => if l.token == TokenView::EOF {
            Ok(
                LexRun {
                    tokens: acc.push(l.token),
                    starts: starts.push(token_start(src, pos)),
                    indents: l.indents,
                },
            )
        } else {
            lex_all(src, l.pos, l.indents, acc.push(l.token), starts.push(token_start(src, pos)))
        },
    }
}

#[via_fn]
proof fn lex_all_terminates(
    src: Seq<Glyph>,
    pos: int,
    indents: Seq<int>,
    acc: Seq<TokenView>,
    starts: Seq<int>,
) {
    lemma_lex_token(src, pos, indents);
}

/// The tokens of `src`, or the first lexical error in it.
pub open spec fn lex(src: Seq<Glyph>) -> Result<LexRun, LexFault> {
    lex_all(src, 0, seq![0int], Seq::empty(), Seq::empty())
}

/// The net nesting that a token sequence opens: the number of its `Indent`
/// tokens less the number of its `Dedent` tokens.
pub open spec fn nesting(tokens: Seq<TokenView>) -> int
    decreases tokens.len(),
{
    if tokens.len() == 0 {
        0
    } else {
        nesting(tokens.drop_last()) + match tokens.last() {
            TokenView::Indent => 1int,
            TokenView::Dedent => -1int,
            _ => 0int,
        }
    }
}

/// What `lex_all` keeps: a run from a well-formed state, after tokens that
/// hold no `EOF` and whose nesting is the depth of the stack, ends with its
/// only `EOF`; at every point of it the nesting so far is not negative and,
/// at its end, is the depth of the stack; and every token has its start,
/// within the text and not before that of the token before it.
proof fn lemma_lex_all(
    src: Seq<Glyph>,
    pos: int,
    indents: Seq<int>,
    acc: Seq<TokenView>,
    starts: Seq<int>,
)
    requires
        0 <= pos <= src.len(),
        indents_wf(indents),
        forall|i: int| 0 <= i < acc.len() ==> acc[i] != TokenView::EOF,
        forall|k: int| 0 <= k <= acc.len() ==> nesting(#[trigger] acc.take(k)) >= 0,
        nesting(acc) == indents.len() - 1,
        starts.len() == acc.len(),
        forall|i: int| 0 <= i < starts.len() ==> 0 <= #[trigger] starts[i] <= pos,
        forall|i: int, j: int| 0 <= i <= j < starts.len() ==> starts[i] <= starts[j],
        forall|i: int| 0 <= i < acc.len() ==> token_wf(#[trigger] acc[i]),
    ensures
        lex_all(src, pos, indents, acc, starts) matches Ok(run) ==> {
            &&& run.tokens.len() > acc.len()
            &&& run.tokens.last() == TokenView::EOF
            &&& forall|i: int| 0 <= i < run.tokens.len() - 1 ==> run.tokens[i] != TokenView::EOF
            &&& forall|k: int|
                0 <= k <= run.tokens.len() ==> nesting(#[trigger] run.tokens.take(k)) >= 0
            &&& nesting(run.tokens) == run.indents.len() - 1
            &&& indents_wf(run.indents)
            &&& run.starts.len() == run.tokens.len()
            &&& forall|i: int|
                0 <= i < run.starts.len() ==> 0 <= #[trigger] run.starts[i] <= src.len()
            &&& forall|i: int, j: int|
                0 <= i <= j < run.starts.len() ==> run.starts[i] <= run.starts[j]
            &&& forall|i: int| 0 <= i < run.tokens.len() ==> token_wf(#[trigger] run.tokens[i])
        },
    decreases src.len() - pos,
{
    lemma_lex_token(src, pos, indents);
    lemma_token_start(src, pos);
    lemma_token_wf(src, pos, indents);
    match lex_token(src, pos, indents) {
        Err(_) => {},
        Ok(l) => {
            let next = acc.push(l.token);
            let next_starts = starts.push(token_start(src, pos));
            assert(next.drop_last() =~= acc);
            assert(nesting(next) == l.indents.len() - 1);
            assert forall|k: int| 0 <= k <= next.len() implies nesting(#[trigger] next.take(k))
                >= 0 by {
                if k <= acc.len() {
                    assert(next.take(k) =~= acc.take(k));
                } else {
                    assert(next.take(k) =~= next);
                }
            }
            if l.token != TokenView::EOF {
                lemma_lex_all(src, l.pos, l.indents, next, next_starts);
            }
        },
    }
}

/// A token starts at or after the cursor, within the text and not after
/// the token's end; and from a token's start the lexer reads the same token.
pub proof fn lemma_token_start(src: Seq<Glyph>, pos: int)
    requires
        0 <= pos <= src.len(),
    ensures
        pos <= token_start(src, pos) <= src.len(),
        token_start(src, token_start(src, pos)) == token_start(src, pos),
        forall|indents: Seq<int>|
            (#[trigger] lex_token(src, pos, indents)) is Ok ==> token_start(src, pos) <= lex_token(
                src,
                pos,
                indents,
            )->Ok_0.pos,
        forall|indents: Seq<int>| #[trigger]
            lex_token(src, token_start(src, pos), indents) == lex_token(src, pos, indents),
{
    lemma_run_end(src, pos, CharClass::Blank);
    let b = run_end(src, pos, CharClass::Blank);
    lemma_run_end(src, b, CharClass::Comment);
    let p = token_start(src, pos);
    lemma_run_end(src, p, CharClass::Blank);
    assert forall|indents: Seq<int>|
        (#[trigger] lex_token(src, pos, indents)) is Ok implies token_start(src, pos) <= lex_token(
        src,
        pos,
        indents,
    )->Ok_0.pos by {
        if p < src.len() {
            lemma_run_end(src, p + 1, CharClass::Margin);
            lemma_run_end(src, p + 1, CharClass::Word);
            lemma_run_end(src, p, CharClass::Digit);
            let int_end = run_end(src, p, CharClass::Digit);
            if int_end < src.len() {
                lemma_run_end(src, int_end + 1, CharClass::Digit);
            }
            lemma_scan_string(src, p + 1, src[p].ch, Seq::empty());
        }
    }
}

/// `lemma_lex_all` at the start of a text.
proof fn lemma_lex_from_start(src: Seq<Glyph>)
    ensures
        lex(src) matches Ok(run) ==> {
            &&& run.tokens.len() >= 1
            &&& run.tokens.last() == TokenView::EOF
            &&& forall|i: int| 0 <= i < run.tokens.len() - 1 ==> run.tokens[i] != TokenView::EOF
            &&& forall|k: int|
                0 <= k <= run.tokens.len() ==> nesting(#[trigger] run.tokens.take(k)) >= 0
            &&& nesting(run.tokens) == run.indents.len() - 1
            &&& indents_wf(run.indents)
            &&& run.starts.len() == run.tokens.len()
            &&& forall|i: int|
                0 <= i < run.starts.len() ==> 0 <= #[trigger] run.starts[i] <= src.len()
            &&& forall|i: int, j: int|
                0 <= i <= j < run.starts.len() ==> run.starts[i] <= run.starts[j]
            &&& forall|i: int| 0 <= i < run.tokens.len() ==> token_wf(#[trigger] run.tokens[i])
        },
{
    let empty = Seq::<TokenView>::empty();
    assert forall|k: int| 0 <= k <= empty.len() implies nesting(#[trigger] empty.take(k))
        >= 0 by {
        assert(empty.take(k) =~= empty);
    }
    lemma_lex_all(src, 0, seq![0int], empty, Seq::empty());
}

/// The token sequence of any text that lexes is not empty, and `EOF` is its
/// last token and no other.
pub proof fn lemma_tokens_end_with_eof(src: Seq<Glyph>)
    requires
        lex(src) is Ok,
    ensures
        lex(src)->Ok_0.tokens.len() >= 1,
        lex(src)->Ok_0.tokens.last() == TokenView::EOF,
        forall|i: int|
            0 <= i < lex(src)->Ok_0.tokens.len() - 1 ==> lex(src)->Ok_0.tokens[i]
                != TokenView::EOF,
{
    lemma_lex_from_start(src);
}

/// `Indent` and `Dedent` tokens are matched: in the tokens of any text that
/// lexes, no prefix closes more levels than it opened, and the net nesting
/// of the whole is the number of indentation levels still open at the end
/// of the text. So the nesting is back at zero exactly when the stack is
/// back at its base.
pub proof fn lemma_nesting_tracks_indents(src: Seq<Glyph>)
    requires
        lex(src) is Ok,
    ensures
        forall|k: int|
            0 <= k <= lex(src)->Ok_0.tokens.len() ==> nesting(
                #[trigger] lex(src)->Ok_0.tokens.take(k),
            ) >= 0,
        nesting(lex(src)->Ok_0.tokens) == lex(src)->Ok_0.indents.len() - 1,
        indents_wf(lex(src)->Ok_0.indents),
        nesting(lex(src)->Ok_0.tokens) == 0 <==> lex(src)->Ok_0.indents == seq![0int],
{
    lemma_lex_from_start(src);
    let run = lex(src)->Ok_0;
    if run.indents.len() == 1 {
        assert(run.indents =~= seq![0int]);
    }
}

/// Every token of a text that lexes has its start: a position within the
/// text, not before the start of the token before it.
pub proof fn lemma_starts_in_order(src: Seq<Glyph>)
    requires
        lex(src) is Ok,
    ensures
        lex(src)->Ok_0.starts.len() == lex(src)->Ok_0.tokens.len(),
        forall|i: int|
            0 <= i < lex(src)->Ok_0.starts.len() ==> 0 <= #[trigger] lex(src)->Ok_0.starts[i]
                <= src.len(),
        forall|i: int, j: int|
            0 <= i <= j < lex(src)->Ok_0.starts.len() ==> lex(src)->Ok_0.starts[i] <= lex(
                src,
            )->Ok_0.starts[j],
{
    lemma_lex_from_start(src);
}

/// Every token of a text that lexes is well-formed: no identifier is empty
/// or a keyword, every integer fits in 64 bits, and every floating-point
/// literal is decimal text.
pub proof fn lemma_tokens_wf(src: Seq<Glyph>)
    requires
        lex(src) is Ok,
    ensures
        forall|i: int|
            0 <= i < lex(src)->Ok_0.tokens.len() ==> token_wf(#[trigger] lex(src)->Ok_0.tokens[i]),
{
    lemma_lex_from_start(src);
}

/// Once the lexer has given `EOF` it gives `EOF` again, from the same state.
pub proof fn lemma_eof_repeats(src: Seq<Glyph>, pos: int, indents: Seq<int>)
    requires
        0 <= pos <= src.len(),
        indents_wf(indents),
        lex_token(src, pos, indents) matches Ok(l) && l.token == TokenView::EOF,
    ensures
        lex_token(src, pos, indents) matches Ok(l) && lex_token(src, l.pos, l.indents) == Ok::<
            Lexed,
            LexFault,
        >(l),
{
    lemma_lex_token(src, pos, indents);
}

/// Whether `g` belongs to `class`.
pub fn char_in_class(class: CharClass, g: Glyph) -> (b: bool)
    ensures
        b == in_class(class, g),
{
    match class {
        CharClass::Blank => g.whitespace && g.ch != '\n',
        CharClass::Word => g.alphanumeric || g.ch == '_',
        CharClass::Digit => is_decimal_digit(g.ch),
        CharClass::Margin => g.ch == ' ' || g.ch == '\t',
        CharClass::Comment => g.ch != '\n',
    }
}

/// A text with each character classified as Unicode has it.
pub open spec fn glyphs(text: Seq<char>) -> Seq<Glyph> {
    Seq::new(text.len(), |i: int| glyph_of(text[i]))
}

/// The characters of `input`, in order, each with its classes.
pub fn glyphs_of(input: &str) -> (source: Vec<Glyph>)
    ensures
        source@ == glyphs(input@),
{
    let mut source: Vec<Glyph> = Vec::new();
    for c in it: input.chars()
        invariant
            source@ == glyphs(it.seq().take(it.index())),
            it.seq() == input@,
    {
        source.push(classify(c));
        assert(source@ =~= glyphs(it.seq().take(it.index() + 1)));
    }
    source
}

/// Machine numbers as integers.
pub open spec fn to_ints(numbers: Seq<usize>) -> Seq<int> {
    Seq::new(numbers.len(), |i: int| numbers[i] as int)
}

/// A cursor over the source text, with the stack of open indentation widths.
pub struct Lexer {
    source: Vec<Glyph>,
    pos: usize,
    indent_stack: Vec<usize>,
}

impl Lexer {
    /// The text being read.
    pub closed spec fn source(&self) -> Seq<Glyph> {
        self.source@
    }

    /// The position of the next character to read.
    pub closed spec fn position(&self) -> int {
        self.pos as int
    }

    /// The widths of the indentation levels that are open, outermost first.
    pub closed spec fn indents(&self) -> Seq<int> {
        to_ints(self.indent_stack@)
    }

    /// The cursor is within the text and the indentation stack is well-formed.
    pub closed spec fn wf(&self) -> bool {
        &&& self.pos <= self.source.len()
        &&& indents_wf(to_ints(self.indent_stack@))
    }

    /// A lexer at the start of `input`, with no indentation open. Each
    /// character is classified as Unicode has it.
    pub fn new(input: &str) -> (lexer: Lexer)
        ensures
            lexer.wf(),
            lexer.source() == glyphs(input@),
            lexer.position() == 0,
            lexer.indents() == seq![0int],
    {
        Lexer::from_glyphs(glyphs_of(input))
    }

    /// A lexer at the start of a text whose characters are classified
    /// already, with no indentation open.
    pub fn from_glyphs(source: Vec<Glyph>) -> (lexer: Lexer)
        ensures
            lexer.wf(),
            lexer.source() == source@,
            lexer.position() == 0,
            lexer.indents() == seq![0int],
    {
        let mut indent_stack: Vec<usize> = Vec::new();
        indent_stack.push(0);
        assert(to_ints(indent_stack@) =~= seq![0int]);
        Lexer { source, pos: 0, indent_stack }
    }

    /// The character under the cursor, if the text has not ended.
    pub fn current(&self) -> (c: Option<char>)
        ensures
            c == if self.position() < self.source().len() {
                Some(self.source()[self.position()].ch)
            } else {
                None
            },
    {
        if self.pos < self.source.len() {
            Some(self.source[self.pos].ch)
        } else {
            None
        }
    }

    /// Moves the cursor one character on.
    pub fn advance(&mut self)
        requires
            old(self).wf(),
            old(self).position() < old(self).source().len(),
        ensures
            final(self).wf(),
            final(self).source() == old(self).source(),
            final(self).indents() == old(self).indents(),
            final(self).position() == old(self).position() + 1,
    {
        self.pos += 1;
    }

    /// Moves the cursor to the end of the run of `class` characters under it.
    pub fn skip_run(&mut self, class: CharClass)
        requires
            old(self).wf(),
        ensures
            final(self).wf(),
            final(self).source() == old(self).source(),
            final(self).indents() == old(self).indents(),
            final(self).position() == run_end(old(self).source(), old(self).position(), class),
    {
        while self.pos < self.source.len() && char_in_class(class, self.source[self.pos])
            invariant
                self.pos <= self.source.len(),
                self.source == old(self).source,
                self.indent_stack == old(self).indent_stack,
                run_end(self.source@, self.pos as int, class) == run_end(
                    old(self).source@,
                    old(self).pos as int,
                    class,
                ),
            decreases self.source.len() - self.pos,
        {
            self.pos += 1;
        }
    }

    /// Skips white space within the line.
    pub fn skip_whitespace(&mut self)
        requires
            old(self).wf(),
        ensures
            final(self).wf(),
            final(self).source() == old(self).source(),
            final(self).indents() == old(self).indents(),
            final(self).position() == run_end(
                old(self).source(),
                old(self).position(),
                CharClass::Blank,
            ),
    {
        self.skip_run(CharClass::Blank);
    }

    /// Skips the rest of the line.
    pub fn skip_comment(&mut self)
        requires
            old(self).wf(),
        ensures
            final(self).wf(),
            final(self).source() == old(self).source(),
            final(self).indents() == old(self).indents(),
            final(self).position() == run_end(
                old(self).source(),
                old(self).position(),
                CharClass::Comment,
            ),
    {
        self.skip_run(CharClass::Comment);
    }

    /// Moves the cursor to where the next token starts: past blanks and,
    /// if a `#` follows them, past the rest of that line.
    pub fn skip_to_token(&mut self)
        requires
            old(self).wf(),
        ensures
            final(self).wf(),
            final(self).source() == old(self).source(),
            final(self).indents() == old(self).indents(),
            final(self).position() == token_start(old(self).source(), old(self).position()),
    {
        self.skip_whitespace();
        if self.pos < self.source.len() && self.source[self.pos].ch == '#' {
            self.skip_comment();
        }
    }

    /// The position of the cursor, in characters from the start of the text.
    pub fn offset(&self) -> (pos: usize)
        ensures
            pos == self.position(),
    {
        self.pos
    }

    /// Reads the line break under the cursor and the margin of the next line.
    pub fn handle_indent(&mut self) -> (token: Token)
        requires
            old(self).wf(),
            old(self).position() < old(self).source().len(),
        ensures
            final(self).wf(),
            final(self).source() == old(self).source(),
            lex_newline(old(self).source(), old(self).position(), old(self).indents()) == (Lexed {
                token: token@,
                pos: final(self).position(),
                indents: final(self).indents(),
            }),
    {
        self.advance();
        let start = self.pos;
        self.skip_run(CharClass::Margin);
        proof {
            lemma_run_end(self.source@, start as int, CharClass::Margin);
        }
        let indent_level = self.pos - start;
        let ghost before = self.indent_stack@;
        let current_indent = self.indent_stack[self.indent_stack.len() - 1];
        assert(current_indent as int == to_ints(before).last());
        if indent_level > current_indent {
            self.indent_stack.push(indent_level);
            proof {
                assert(to_ints(self.indent_stack@) =~= to_ints(before).push(indent_level as int));
                let grown = to_ints(self.indent_stack@);
                assert forall|i: int, j: int| 0 <= i < j < grown.len() implies grown[i]
                    < grown[j] by {
                    if j == before.len() {
                        assert(to_ints(before)[i] <= to_ints(before).last());
                    } else {
                        assert(to_ints(before)[i] < to_ints(before)[j]);
                    }
                }
                assert(grown[0] == to_ints(before)[0]);
            }
            Token::Indent
        } else if indent_level < current_indent {
            assert(to_ints(before)[0] == 0);
            self.indent_stack.pop();
            proof {
                assert(to_ints(self.indent_stack@) =~= to_ints(before).drop_last());
                let shrunk = to_ints(self.indent_stack@);
                assert forall|i: int, j: int| 0 <= i < j < shrunk.len() implies shrunk[i]
                    < shrunk[j] by {
                    assert(to_ints(before)[i] < to_ints(before)[j]);
                }
                assert(shrunk[0] == to_ints(before)[0]);
            }
            Token::Dedent
        } else {
            Token::Newline
        }
    }

    /// Whether the text from `start` to `end` spells `word`.
    pub fn word_is(&self, start: usize, end: usize, word: &str) -> (same: bool)
        requires
            start <= end <= self.source().len(),
        ensures
            same == (spell(self.source().subrange(start as int, end as int)) == word@),
    {
        let n = word.unicode_len();
        if end - start != n {
            return false;
        }
        let mut i: usize = 0;
        while i < n
            invariant
                i <= n,
                n == word@.len(),
                end - start == n,
                end <= self.source.len(),
                forall|j: int| 0 <= j < i ==> self.source[start + j].ch == word@[j],
            decreases n - i,
        {
            if self.source[start + i].ch != word.get_char(i) {
                assert(spell(self.source@.subrange(start as int, end as int))[i as int]
                    != word@[i as int]);
                return false;
            }
            i += 1;
        }
        assert(spell(self.source@.subrange(start as int, end as int)) =~= word@);
        true
    }

    /// The text from `start` to `end`.
    pub fn slice_text(&self, start: usize, end: usize) -> (text: String)
        requires
            start <= end <= self.source().len(),
        ensures
            text@ == spell(self.source().subrange(start as int, end as int)),
    {
        let mut text = String::new();
        let mut i: usize = start;
        while i < end
            invariant
                start <= i <= end,
                end <= self.source.len(),
                text@ == spell(self.source@.subrange(start as int, i as int)),
            decreases end - i,
        {
            text.push(self.source[i].ch);
            assert(text@ =~= spell(self.source@.subrange(start as int, i + 1)));
            i += 1;
        }
        assert(text@ =~= spell(self.source@.subrange(start as int, end as int)));
        text
    }

    /// Reads the word under the cursor: a keyword or an identifier.
    pub fn read_identifier(&mut self) -> (token: Token)
        requires
            old(self).wf(),
            old(self).position() < old(self).source().len(),
        ensures
            final(self).wf(),
            final(self).source() == old(self).source(),
            final(self).indents() == old(self).indents(),
            (token@, final(self).position()) == lex_word(old(self).source(), old(self).position()),
    {
        let start = self.pos;
        self.advance();
        self.skip_run(CharClass::Word);
        let end = self.pos;
        proof {
            lemma_run_end(self.source@, start + 1, CharClass::Word);
        }
        if self.word_is(start, end, "def") {
            Token::Def
        } else if self.word_is(start, end, "if") {
            Token::If
        } else if self.word_is(start, end, "else") {
            Token::Else
        } else if self.word_is(start, end, "while") {
            Token::While
        } else if self.word_is(start, end, "for") {
            Token::For
        } else if self.word_is(start, end, "in") {
            Token::In
        } else if self.word_is(start, end, "return") {
            Token::Return
        } else if self.word_is(start, end, "let") {
            Token::Let
        } else if self.word_is(start, end, "extern") {
            Token::Extern
        } else if self.word_is(start, end, "struct") {
            Token::Struct
        } else if self.word_is(start, end, "pass") {
            Token::Pass
        } else if self.word_is(start, end, "and") {
            Token::And
        } else if self.word_is(start, end, "or") {
            Token::Or
        } else if self.word_is(start, end, "not") {
            Token::Not
        } else if self.word_is(start, end, "True") {
            Token::True
        } else if self.word_is(start, end, "False") {
            Token::False
        } else {
            Token::Ident(self.slice_text(start, end))
        }
    }

    /// Reads the number under the cursor. On an integer that does not fit
    /// the cursor stays where the number starts.
    pub fn read_number(&mut self) -> (r: Result<Token, LexError>)
        requires
            old(self).wf(),
        ensures
            final(self).wf(),
            final(self).source() == old(self).source(),
            final(self).indents() == old(self).indents(),
            match lex_number(old(self).source(), old(self).position()) {
                Ok((token, end)) => r is Ok && r->Ok_0@ == token && final(self).position() == end,
                Err(fault) => r is Err && r->Err_0@ == fault && final(self).position() == old(
                    self,
                ).position(),
            },
    {
        let start = self.pos;
        let mut value: i64 = 0;
        let mut fits = true;
        assert(spell(self.source@.subrange(start as int, start as int)) =~= Seq::<char>::empty());
        while self.pos < self.source.len() && is_decimal_digit(self.source[self.pos].ch)
            invariant
                start <= self.pos <= self.source.len(),
                self.source == old(self).source,
                self.indent_stack == old(self).indent_stack,
                run_end(self.source@, self.pos as int, CharClass::Digit) == run_end(
                    self.source@,
                    start as int,
                    CharClass::Digit,
                ),
                0 <= value,
                fits ==> value == decimal_value(
                    spell(self.source@.subrange(start as int, self.pos as int)),
                ),
                !fits ==> decimal_value(spell(self.source@.subrange(start as int, self.pos as int)))
                    > i64::MAX,
            decreases self.source.len() - self.pos,
        {
            let c = self.source[self.pos].ch;
            let d: i64 = (c as u32 - 48) as i64;
            proof {
                let longer = spell(self.source@.subrange(start as int, self.pos + 1));
                assert(longer.drop_last() =~= spell(
                    self.source@.subrange(start as int, self.pos as int),
                ));
                assert(longer.last() == c);
            }
            if fits {
                if value > (i64::MAX - d) / 10 {
                    fits = false;
                } else {
                    value = value * 10 + d;
                }
            }
            self.pos += 1;
        }
        if self.pos < self.source.len() && self.source[self.pos].ch == '.' {
            self.advance();
            proof {
                lemma_run_end(self.source@, self.pos as int, CharClass::Digit);
            }
            self.skip_run(CharClass::Digit);
            let text = self.slice_text(start, self.pos);
            Ok(Token::Float(text))
        } else if fits {
            Ok(Token::Int(value))
        } else {
            self.pos = start;
            Err(LexError { kind: LexErrorKind::MalformedNumber, pos: start })
        }
    }

    /// Reads the string literal whose opening quote is under the cursor. If
    /// the text ends inside it the cursor stays at that quote.
    pub fn read_string(&mut self) -> (r: Result<Token, LexError>)
        requires
            old(self).wf(),
            old(self).position() < old(self).source().len(),
        ensures
            final(self).wf(),
            final(self).source() == old(self).source(),
            final(self).indents() == old(self).indents(),
            match lex_string(old(self).source(), old(self).position()) {
                Ok((token, end)) => r is Ok && r->Ok_0@ == token && final(self).position() == end,
                Err(fault) => r is Err && r->Err_0@ == fault && final(self).position() == old(
                    self,
                ).position(),
            },
    {
        let start = self.pos;
        let quote = self.source[self.pos].ch;
        self.advance();
        let mut text = String::new();
        loop
            invariant
                start < self.pos <= self.source.len(),
                self.wf(),
                self.source() == old(self).source(),
                self.indents() == old(self).indents(),
                start == old(self).pos,
                quote == self.source[start as int].ch,
                scan_string(self.source@, self.pos as int, quote, text@) == scan_string(
                    self.source@,
                    start + 1,
                    quote,
                    Seq::empty(),
                ),
            decreases self.source.len() - self.pos,
        {
            if self.pos >= self.source.len() {
                self.pos = start;
                return Err(LexError { kind: LexErrorKind::UnterminatedString, pos: start });
            }
            let c = self.source[self.pos].ch;
            if c == quote {
                self.advance();
                return Ok(Token::String(text));
            }
            if c == '\\' {
                self.advance();
                if self.pos >= self.source.len() {
                    self.pos = start;
                    return Err(LexError { kind: LexErrorKind::UnterminatedString, pos: start });
                }
                let escaped = self.source[self.pos].ch;
                if escaped == 'n' {
                    text.push('\n');
                } else if escaped == 't' {
                    text.push('\t');
                } else if escaped == 'r' {
                    text.push('\r');
                } else {
                    text.push(escaped);
                }
            } else {
                text.push(c);
            }
            self.advance();
        }
    }

    /// Whether the character after the cursor is `c`.
    pub fn next_is(&self, c: char) -> (b: bool)
        ensures
            b == followed_by(self.source(), self.position(), c),
    {
        self.pos < self.source.len() && self.pos + 1 < self.source.len() && self.source[self.pos
            + 1].ch == c
    }

    /// Reads `->` or `-`.
    pub fn read_minus_or_arrow(&mut self) -> (token: Token)
        requires
            old(self).wf(),
            old(self).position() < old(self).source().len(),
        ensures
            final(self).wf(),
            final(self).source() == old(self).source(),
            final(self).indents() == old(self).indents(),
            (token@, final(self).position()) == if followed_by(
                old(self).source(),
                old(self).position(),
                '>',
            ) {
                (TokenView::Arrow, old(self).position() + 2)
            } else {
                (TokenView::Minus, old(self).position() + 1)
            },
    {
        let two = self.next_is('>');
        self.advance();
        if two {
            self.advance();
            Token::Arrow
        } else {
            Token::Minus
        }
    }

    /// Reads `==` or `=`.
    pub fn read_equals(&mut self) -> (token: Token)
        requires
            old(self).wf(),
            old(self).position() < old(self).source().len(),
        ensures
            final(self).wf(),
            final(self).source() == old(self).source(),
            final(self).indents() == old(self).indents(),
            (token@, final(self).position()) == if followed_by(
                old(self).source(),
                old(self).position(),
                '=',
            ) {
                (TokenView::EqEq, old(self).position() + 2)
            } else {
                (TokenView::Eq, old(self).position() + 1)
            },
    {
        let two = self.next_is('=');
        self.advance();
        if two {
            self.advance();
            Token::EqEq
        } else {
            Token::Eq
        }
    }

    /// Reads `!=`. A `!` alone is an error, and the cursor stays on it.
    pub fn read_not_equals(&mut self) -> (r: Result<Token, LexError>)
        requires
            old(self).wf(),
            old(self).position() < old(self).source().len(),
        ensures
            final(self).wf(),
            final(self).source() == old(self).source(),
            final(self).indents() == old(self).indents(),
            if followed_by(old(self).source(), old(self).position(), '=') {
                r is Ok && r->Ok_0@ == TokenView::Ne && final(self).position() == old(
                    self,
                ).position() + 2
            } else {
                r is Err && r->Err_0@ == (LexFault {
                    kind: LexErrorKind::LoneBang,
                    at: old(self).position(),
                }) && final(self).position() == old(self).position()
            },
    {
        if self.next_is('=') {
            self.advance();
            self.advance();
            Ok(Token::Ne)
        } else {
            Err(LexError { kind: LexErrorKind::LoneBang, pos: self.pos })
        }
    }

    /// Reads `<=` or `<`.
    pub fn read_less(&mut self) -> (token: Token)
        requires
            old(self).wf(),
            old(self).position() < old(self).source().len(),
        ensures
            final(self).wf(),
            final(self).source() == old(self).source(),
            final(self).indents() == old(self).indents(),
            (token@, final(self).position()) == if followed_by(
                old(self).source(),
                old(self).position(),
                '=',
            ) {
                (TokenView::Le, old(self).position() + 2)
            } else {
                (TokenView::Lt, old(self).position() + 1)
            },
    {
        let two = self.next_is('=');
        self.advance();
        if two {
            self.advance();
            Token::Le
        } else {
            Token::Lt
        }
    }

    /// Reads `>=` or `>`.
    pub fn read_greater(&mut self) -> (token: Token)
        requires
            old(self).wf(),
            old(self).position() < old(self).source().len(),
        ensures
            final(self).wf(),
            final(self).source() == old(self).source(),
            final(self).indents() == old(self).indents(),
            (token@, final(self).position()) == if followed_by(
                old(self).source(),
                old(self).position(),
                '=',
            ) {
                (TokenView::Ge, old(self).position() + 2)
            } else {
                (TokenView::Gt, old(self).position() + 1)
            },
    {
        let two = self.next_is('=');
        self.advance();
        if two {
            self.advance();
            Token::Ge
        } else {
            Token::Gt
        }
    }

    /// Reads the next token. At the end of the text it is `EOF`, again and
    /// again. On an error the cursor stays at the text that the error is about.
    pub fn next_token(&mut self) -> (r: Result<Token, LexError>)
        requires
            old(self).wf(),
        ensures
            final(self).wf(),
            final(self).source() == old(self).source(),
            match lex_token(old(self).source(), old(self).position(), old(self).indents()) {
                Ok(l) => r is Ok && r->Ok_0@ == l.token && final(self).position() == l.pos
                    && final(self).indents() == l.indents,
                Err(fault) => r is Err && r->Err_0@ == fault && final(self).position() == fault.at
                    && final(self).indents() == old(self).indents(),
            },
    {
        self.skip_to_token();
        if self.pos >= self.source.len() {
            return Ok(Token::EOF);
        }
        let c = self.source[self.pos].ch;
        if c == '\n' {
            Ok(self.handle_indent())
        } else if self.source[self.pos].alphabetic || c == '_' {
            Ok(self.read_identifier())
        } else if is_decimal_digit(c) {
            self.read_number()
        } else if c == '"' || c == '\'' {
            self.read_string()
        } else if c == '+' {
            self.advance();
            Ok(Token::Plus)
        } else if c == '-' {
            Ok(self.read_minus_or_arrow())
        } else if c == '*' {
            self.advance();
            Ok(Token::Star)
        } else if c == '/' {
            self.advance();
            Ok(Token::Slash)
        } else if c == '%' {
            self.advance();
            Ok(Token::Percent)
        } else if c == '=' {
            Ok(self.read_equals())
        } else if c == '!' {
            self.read_not_equals()
        } else if c == '<' {
            Ok(self.read_less())
        } else if c == '>' {
            Ok(self.read_greater())
        } else if c == '(' {
            self.advance();
            Ok(Token::LParen)
        } else if c == ')' {
            self.advance();
            Ok(Token::RParen)
        } else if c == ':' {
            self.advance();
            Ok(Token::Colon)
        } else if c == ',' {
            self.advance();
            Ok(Token::Comma)
        } else {
            Err(LexError { kind: LexErrorKind::UnexpectedCharacter, pos: self.pos })
        }
    }
}

/// The tokens of a text and, for each, the position of its first character.
#[derive(Debug, PartialEq, Eq)]
pub struct Scanned {
    pub tokens: Vec<Token>,
    pub starts: Vec<usize>,
}

impl View for Scanned {
    type V = (Seq<TokenView>, Seq<int>);

    open spec fn view(&self) -> (Seq<TokenView>, Seq<int>) {
        (tokens_view(self.tokens@), to_ints(self.starts@))
    }
}

/// Splits a text whose characters are classified already into tokens, the
/// last of which is `EOF`, and tells where each starts; or reports the
/// first lexical error in it.
pub fn scan_glyphs(source: Vec<Glyph>) -> (r: Result<Scanned, LexError>)
    ensures
        match lex(source@) {
            Ok(run) => r is Ok && r->Ok_0@ == (run.tokens, run.starts),
            Err(fault) => r is Err && r->Err_0@ == fault,
        },
        r matches Ok(scanned) ==> {
            &&& scanned.tokens@.len() >= 1
            &&& scanned.tokens@.last()@ == TokenView::EOF
            &&& scanned.starts@.len() == scanned.tokens@.len()
        },
{
    let ghost src = source@;
    let mut lexer = Lexer::from_glyphs(source);
    let mut tokens: Vec<Token> = Vec::new();
    let mut starts: Vec<usize> = Vec::new();
    assert(tokens_view(tokens@) =~= Seq::<TokenView>::empty());
    assert(to_ints(starts@) =~= Seq::<int>::empty());
    loop
        invariant
            lexer.wf(),
            src == source@,
            lexer.source() == src,
            lex(src) == lex_all(
                lexer.source(),
                lexer.position(),
                lexer.indents(),
                tokens_view(tokens@),
                to_ints(starts@),
            ),
        decreases lexer.source().len() - lexer.position(),
    {
        proof {
            lemma_lex_token(lexer.source(), lexer.position(), lexer.indents());
            lemma_token_start(lexer.source(), lexer.position());
        }
        let ghost before = tokens@;
        let ghost starts_before = starts@;
        lexer.skip_to_token();
        let start = lexer.offset();
        let token = lexer.next_token()?;
        let done = matches!(token, Token::EOF);
        tokens.push(token);
        starts.push(start);
        assert(tokens_view(tokens@) =~= tokens_view(before).push(token@));
        assert(to_ints(starts@) =~= to_ints(starts_before).push(start as int));
        if done {
            proof {
                lemma_tokens_end_with_eof(src);
                lemma_starts_in_order(src);
            }
            return Ok(Scanned { tokens, starts });
        }
    }
}

/// Splits `input` into tokens, the last of which is `EOF`, and tells where
/// each starts; or reports the first lexical error in it. Each character
/// is classified as Unicode has it.
pub fn scan(input: &str) -> (r: Result<Scanned, LexError>)
    ensures
        match lex(glyphs(input@)) {
            Ok(run) => r is Ok && r->Ok_0@ == (run.tokens, run.starts),
            Err(fault) => r is Err && r->Err_0@ == fault,
        },
        r matches Ok(scanned) ==> {
            &&& scanned.tokens@.len() >= 1
            &&& scanned.tokens@.last()@ == TokenView::EOF
            &&& scanned.starts@.len() == scanned.tokens@.len()
        },
{
    scan_glyphs(glyphs_of(input))
}

/// Splits a text whose characters are classified already into tokens,
/// the last of which is `EOF`, or reports the first lexical error in it.
pub fn tokenize_glyphs(source: Vec<Glyph>) -> (r: Result<Vec<Token>, LexError>)
    ensures
        match lex(source@) {
            Ok(run) => r is Ok && tokens_view(r->Ok_0@) == run.tokens,
            Err(fault) => r is Err && r->Err_0@ == fault,
        },
        r matches Ok(tokens) ==> tokens@.len() >= 1 && tokens@.last()@ == TokenView::EOF,
{
    match scan_glyphs(source) {
        Ok(scanned) => Ok(scanned.tokens),
        Err(e) => Err(e),
    }
}

/// Splits `input` into tokens, the last of which is `EOF`, or reports the
/// first lexical error in it. Each character is classified as Unicode has it.
pub fn tokenize(input: &str) -> (r: Result<Vec<Token>, LexError>)
    ensures
        match lex(glyphs(input@)) {
            Ok(run) => r is Ok && tokens_view(r->Ok_0@) == run.tokens,
            Err(fault) => r is Err && r->Err_0@ == fault,
        },
        r matches Ok(tokens) ==> tokens@.len() >= 1 && tokens@.last()@ == TokenView::EOF,
{
    tokenize_glyphs(glyphs_of(input))
}

} // verus!
