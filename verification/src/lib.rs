//! A small source-to-source compiler front end: an indentation-aware lexer,
//! a precedence-climbing parser and an emitter of C++ text, each stated
//! against a mathematical model and proved to follow it.

pub mod ast;
pub mod codegen;
pub mod grammar;
pub mod lexer;
pub mod parser;
pub mod text;
pub mod token;

use crate::codegen::{
    emit_expr, emit_program, escaped, escaped_char, lemma_escaped_front,
    lemma_plain_writes_nothing, CodeGen,
};
use crate::grammar::{
    ends_with_only_eof, lemma_parse_ends_at_eof, lemma_parse_expression, parse_expression,
    parse_program, SyntaxFault,
};
use crate::lexer::{
    glyphs, glyphs_of, lemma_tokens_end_with_eof, lex, scan_glyphs, scan_string, LexError,
    LexFault,
};
use crate::parser::{parse_tokens, ParseError};
use crate::text::Glyph;
use crate::token::{tokens_view, TokenView};
use vstd::prelude::*;

verus! {

/// Why a source text cannot be compiled.
#[derive(Debug, PartialEq, Eq)]
pub enum CompileError {
    Lex(LexError),
    /// A syntax error and the position in the text, in characters, of the
    /// token that it is about.
    Parse { error: ParseError, offset: usize },
}

/// The model of a compile error.
pub enum CompileFault {
    Lex(LexFault),
    Parse { fault: SyntaxFault, offset: int },
}

impl View for CompileError {
    type V = CompileFault;

    open spec fn view(&self) -> CompileFault {
        match self {
            CompileError::Lex(e) => CompileFault::Lex(e@),
            CompileError::Parse { error, offset } => CompileFault::Parse {
                fault: error@,
                offset: *offset as int,
            },
        }
    }
}

/// The C++ text of a source text whose characters are classified: its
/// tokens parsed and the tree emitted, or the first error on the way. A
/// syntax error comes with the position in the text of the token that it
/// is about.
pub open spec fn compilation_of(source: Seq<Glyph>) -> Result<Seq<char>, CompileFault> {
    match lex(source) {
        Err(f) => Err(CompileFault::Lex(f)),
        Ok(run) => match crate::grammar::parse(run.tokens) {
            Err(f) => Err(CompileFault::Parse { fault: f, offset: run.starts[f.at] }),
            Ok(program) => Ok(emit_program(program)),
        },
    }
}

/// The C++ text of a source text, each character classified as Unicode has it.
pub open spec fn compilation(source: Seq<char>) -> Result<Seq<char>, CompileFault> {
    compilation_of(glyphs(source))
}

/// An expression that the grammar reads is rendered in place: it holds no
/// conditional and no loop, so nothing is written ahead of it and no empty
/// text stands in for a part of it.
pub proof fn lemma_parsed_expression_is_rendered_in_place(
    tokens: Seq<TokenView>,
    pos: int,
    level: nat,
)
    requires
        0 <= pos <= tokens.len(),
    ensures
        parse_expression(tokens, pos) matches Ok((e, _)) ==> emit_expr(e, level).hoisted
            == Seq::<char>::empty(),
{
    lemma_parse_expression(tokens, pos);
    match parse_expression(tokens, pos) {
        Ok((e, _)) => lemma_plain_writes_nothing(e, level),
        Err(_) => {},
    }
}

/// The parser reads the tokens of a text that lexes to their end: on
/// success it has taken every token but the last, the `EOF`, and stands on
/// it; a failure is about one of the tokens.
pub proof fn lemma_parse_of_lexed_tokens(source: Seq<Glyph>)
    requires
        lex(source) is Ok,
    ensures
        ends_with_only_eof(lex(source)->Ok_0.tokens),
        parse_program(lex(source)->Ok_0.tokens, 0, Seq::empty()) matches Ok((_, n)) ==> n == lex(
            source,
        )->Ok_0.tokens.len() - 1,
        parse_program(lex(source)->Ok_0.tokens, 0, Seq::empty()) matches Err(f) ==> 0 <= f.at < lex(
            source,
        )->Ok_0.tokens.len(),
{
    lemma_tokens_end_with_eof(source);
    lemma_parse_ends_at_eof(lex(source)->Ok_0.tokens);
}

/// A string literal as it is emitted reads back as the text it stands for:
/// where the escaped text and then a double quote stand in a source, the
/// lexer's reading of a string body gives that text and ends after that
/// quote. So no quote, backslash or line feed of the text ends or breaks
/// the literal.
pub proof fn lemma_escaped_reads_back(src: Seq<Glyph>, pos: int, text: Seq<char>, acc: Seq<char>)
    requires
        0 <= pos,
        pos + escaped(text).len() < src.len(),
        forall|i: int| 0 <= i < escaped(text).len() ==> src[pos + i].ch == escaped(text)[i],
        src[pos + escaped(text).len()].ch == '"',
    ensures
        scan_string(src, pos, '"', acc) == Some((acc + text, pos + escaped(text).len() + 1)),
    decreases text.len(),
{
    reveal_strlit("\\\"");
    reveal_strlit("\\\\");
    reveal_strlit("\\n");
    reveal_strlit("\\t");
    reveal_strlit("\\r");
    if text.len() == 0 {
        assert(acc + text =~= acc);
    } else {
        let c = text[0];
        let rest = text.drop_first();
        assert(text =~= seq![c] + rest);
        lemma_escaped_front(c, rest);
        let head = escaped_char(c);
        let tail = escaped(rest);
        assert(escaped(text) == head + tail);
        assert forall|i: int| 0 <= i < head.len() implies src[pos + i].ch == head[i] by {
            assert(escaped(text)[i] == head[i]);
        }
        assert forall|i: int| 0 <= i < tail.len() implies src[pos + head.len() + i].ch
            == tail[i] by {
            assert(escaped(text)[head.len() + i] == tail[i]);
        }
        assert(src[pos].ch == head[0]);
        if head.len() == 2 {
            assert(src[pos + 1].ch == head[1]);
        }
        lemma_escaped_reads_back(src, pos + head.len(), rest, acc.push(c));
        assert(acc.push(c) + rest =~= acc + text);
    }
}

/// Compiles a source text whose characters are classified already to C++.
pub fn compile_glyphs(source: Vec<Glyph>) -> (r: Result<String, CompileError>)
    ensures
        match compilation_of(source@) {
            Ok(code) => r is Ok && r->Ok_0@ == code,
            Err(f) => r is Err && r->Err_0@ == f,
        },
{
    let scanned = match scan_glyphs(source) {
        Ok(scanned) => scanned,
        Err(e) => {
            return Err(CompileError::Lex(e));
        },
    };
    let starts = scanned.starts;
    proof {
        lemma_parse_ends_at_eof(tokens_view(scanned.tokens@));
    }
    let ast = match parse_tokens(scanned.tokens) {
        Ok(ast) => ast,
        Err(error) => {
            let offset = starts[error.position];
            return Err(CompileError::Parse { error, offset });
        },
    };
    Ok(CodeGen::generate(ast))
}

/// Compiles a source text to C++.
pub fn compile(source: &str) -> (r: Result<String, CompileError>)
    ensures
        match compilation(source@) {
            Ok(code) => r is Ok && r->Ok_0@ == code,
            Err(f) => r is Err && r->Err_0@ == f,
        },
{
    compile_glyphs(glyphs_of(source))
}

} // verus!
