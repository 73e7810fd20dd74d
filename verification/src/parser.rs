//! The parser: recursive descent over a token sequence, one method for
//! each rule of the grammar, each proved to give what the grammar says.

use crate::ast::{
    exprs_view, lemma_exprs_view_push, lemma_params_view_push, lemma_stmts_view_push, params_view,
    stmts_view, BinOp, Block, Expr, ExprView, FunctionDef, Literal, Stmt, StmtView, Type,
    TypeView, UnaryOp,
};
use crate::grammar::{
    after, at_end, call_suffix, expect, expect_ident, fault, fold_tier, is_assignment,
    lemma_parse_program, no_eof, operator_at, parse_args, parse_block, parse_call,
    parse_declaration, parse_expression, parse_for, parse_function, parse_if, parse_let,
    parse_params, parse_primary, parse_program, parse_return, parse_signature, parse_simple,
    parse_statement, parse_suite, parse_tier, parse_type, parse_while, peek, remaining, within,
    ExpectedView, Parse, SyntaxFault,
};
use crate::text::str_eq;
use crate::token::{same_kind, tokens_view, Token, TokenView};
use vstd::prelude::*;

verus! {

/// What the parser was looking for when it met a token that does not fit.
#[derive(Debug, PartialEq, Eq)]
pub enum Expected {
    /// A token of the same kind as this one.
    Token(Token),
    Identifier,
    TypeName,
    /// The start of an expression.
    Expression,
    /// A comma, or the parenthesis that closes the list.
    Separator,
}

/// A syntax error: what was expected, the token found instead and its
/// index in the token sequence.
#[derive(Debug, PartialEq, Eq)]
pub struct ParseError {
    pub expected: Expected,
    pub found: Token,
    pub position: usize,
}

impl View for Expected {
    type V = ExpectedView;

    open spec fn view(&self) -> ExpectedView {
        match self {
            Expected::Token(t) => ExpectedView::Token(t@),
            Expected::Identifier => ExpectedView::Identifier,
            Expected::TypeName => ExpectedView::TypeName,
            Expected::Expression => ExpectedView::Expression,
            Expected::Separator => ExpectedView::Separator,
        }
    }
}

impl View for ParseError {
    type V = SyntaxFault;

    open spec fn view(&self) -> SyntaxFault {
        SyntaxFault { expected: self.expected@, found: self.found@, at: self.position as int }
    }
}

/// A method that went from position `before` to `next` and returned `r`
/// did what `spec` says of `before`: on success the value's model is the
/// one given and the tokens taken are as many; on failure the error is the
/// one given and the parser stands at the offending token.
pub open spec fn agrees<T: View>(
    spec: Parse<T::V>,
    before: int,
    next: int,
    r: Result<T, ParseError>,
) -> bool {
    match spec {
        Ok((value, n)) => r is Ok && r->Ok_0@ == value && next == before + n,
        Err(f) => r is Err && r->Err_0@ == f && next == f.at,
    }
}

/// `r` is what parsing `tokens` gives: the program that the grammar reads
/// in them, or the first syntax error.
pub open spec fn parse_outcome(tokens: Seq<TokenView>, r: Result<Vec<Stmt>, ParseError>) -> bool {
    match crate::grammar::parse(tokens) {
        Ok(program) => r is Ok && stmts_view(r->Ok_0) == program,
        Err(f) => r is Err && r->Err_0@ == f,
    }
}

/// Parsing is deterministic: two outcomes of parsing the same tokens
/// succeed or fail together, with the same tree or the same error.
pub proof fn lemma_parse_deterministic(
    tokens: Seq<TokenView>,
    first: Result<Vec<Stmt>, ParseError>,
    second: Result<Vec<Stmt>, ParseError>,
)
    requires
        parse_outcome(tokens, first),
        parse_outcome(tokens, second),
    ensures
        first is Ok <==> second is Ok,
        first is Ok ==> stmts_view(first->Ok_0) == stmts_view(second->Ok_0),
        first is Err ==> first->Err_0@ == second->Err_0@,
{
}

/// Parses a whole token sequence.
pub fn parse_tokens(tokens: Vec<Token>) -> (r: Result<Vec<Stmt>, ParseError>)
    ensures
        parse_outcome(tokens_view(tokens@), r),
{
    let mut parser = Parser::new(tokens);
    parser.parse()
}

/// A cursor over a token sequence.
pub struct Parser {
    tokens: Vec<Token>,
    current: usize,
}

impl Parser {
    /// The tokens being parsed.
    pub closed spec fn tokens(&self) -> Seq<TokenView> {
        tokens_view(self.tokens@)
    }

    /// The index of the next token to read.
    pub closed spec fn position(&self) -> int {
        self.current as int
    }

    /// The cursor is within the tokens or just past them.
    pub closed spec fn wf(&self) -> bool {
        self.current <= self.tokens.len()
    }

    /// A parser at the first of `tokens`.
    pub fn new(tokens: Vec<Token>) -> (parser: Parser)
        ensures
            parser.wf(),
            parser.tokens() == tokens_view(tokens@),
            parser.position() == 0,
    {
        Parser { tokens, current: 0 }
    }

    /// Whether nothing is left to parse.
    pub fn is_at_end(&self) -> (b: bool)
        ensures
            b == at_end(self.tokens(), self.position()),
    {
        self.current >= self.tokens.len() || matches!(self.peek(), Token::EOF)
    }

    /// The token under the cursor; past the end it is `EOF`.
    pub fn peek(&self) -> (token: &Token)
        ensures
            token@ == peek(self.tokens(), self.position()),
    {
        if self.current < self.tokens.len() {
            &self.tokens[self.current]
        } else {
            &Token::EOF
        }
    }

    /// Moves past the token under the cursor, unless nothing is left.
    pub fn advance(&mut self)
        requires
            old(self).wf(),
        ensures
            final(self).wf(),
            final(self).tokens() == old(self).tokens(),
            final(self).position() == if at_end(old(self).tokens(), old(self).position()) {
                old(self).position()
            } else {
                old(self).position() + 1
            },
    {
        if !self.is_at_end() {
            self.current += 1;
        }
    }

    /// The token before the cursor.
    pub fn previous(&self) -> (token: &Token)
        requires
            self.wf(),
            self.position() > 0,
        ensures
            token@ == self.tokens()[self.position() - 1],
    {
        &self.tokens[self.current - 1]
    }

    /// The error of meeting the token under the cursor where `expected` should stand.
    fn unexpected(&self, expected: Expected) -> (e: ParseError)
        ensures
            e@ == fault(expected@, self.tokens(), self.position()),
    {
        ParseError { expected, found: self.peek().clone(), position: self.current }
    }

    /// Takes a token of the kind of `expected`, or fails.
    pub fn consume(&mut self, expected: &Token) -> (r: Result<(), ParseError>)
        requires
            old(self).wf(),
        ensures
            final(self).wf(),
            final(self).tokens() == old(self).tokens(),
            match expect(old(self).tokens(), old(self).position(), expected@) {
                Ok(n) => r is Ok && final(self).position() == old(self).position() + n,
                Err(f) => r is Err && r->Err_0@ == f && final(self).position() == f.at,
            },
    {
        if self.peek().same_kind(expected) {
            self.advance();
            Ok(())
        } else {
            Err(self.unexpected(Expected::Token(expected.clone())))
        }
    }

    /// Takes an identifier and returns its name, or fails.
    pub fn consume_ident(&mut self) -> (r: Result<String, ParseError>)
        requires
            old(self).wf(),
        ensures
            final(self).wf(),
            final(self).tokens() == old(self).tokens(),
            agrees(
                expect_ident(old(self).tokens(), old(self).position()),
                old(self).position(),
                final(self).position(),
                r,
            ),
    {
        match self.peek() {
            Token::Ident(name) => {
                let name = name.clone();
                self.advance();
                Ok(name)
            },
            _ => Err(self.unexpected(Expected::Identifier)),
        }
    }

    /// Takes a type name and returns the type it denotes, or fails.
    pub fn parse_type(&mut self) -> (r: Result<Type, ParseError>)
        requires
            old(self).wf(),
        ensures
            final(self).wf(),
            final(self).tokens() == old(self).tokens(),
            agrees(
                parse_type(old(self).tokens(), old(self).position()),
                old(self).position(),
                final(self).position(),
                r,
            ),
    {
        match self.peek() {
            Token::Ident(declared) => {
                let declared = declared.clone();
                self.advance();
                let name = declared.as_str();
                Ok(
                    if str_eq(name, "int") {
                        Type::Int
                    } else if str_eq(name, "float") {
                        Type::Float
                    } else if str_eq(name, "string") {
                        Type::String
                    } else if str_eq(name, "bool") {
                        Type::Bool
                    } else if str_eq(name, "void") {
                        Type::Void
                    } else {
                        Type::Custom(declared)
                    },
                )
            },
            _ => Err(self.unexpected(Expected::TypeName)),
        }
    }

    /// Whether an identifier directly followed by `=` is under the cursor.
    pub fn is_assignment(&self) -> (b: bool)
        ensures
            b == is_assignment(self.tokens(), self.position()),
    {
        if let Token::Ident(_) = self.peek() {
            assert(self.current < self.tokens.len());
            if self.current + 1 < self.tokens.len() {
                if let Token::Eq = &self.tokens[self.current + 1] {
                    return true;
                }
            }
        }
        false
    }

    /// The index of the token under the cursor.
    pub fn offset(&self) -> (index: usize)
        ensures
            index == self.position(),
    {
        self.current
    }

    /// Parses a whole program: declarations up to the end of the tokens.
    /// The parser passes no `EOF` and stays within the tokens; on success
    /// it stands where nothing is left, at the first `EOF` from where it
    /// started or at the end of the tokens.
    pub fn parse(&mut self) -> (r: Result<Vec<Stmt>, ParseError>)
        requires
            old(self).wf(),
        ensures
            final(self).wf(),
            final(self).tokens() == old(self).tokens(),
            match parse_program(old(self).tokens(), old(self).position(), Seq::empty()) {
                Ok((program, n)) => r is Ok && stmts_view(r->Ok_0) == program
                    && final(self).position() == old(self).position() + n,
                Err(f) => r is Err && r->Err_0@ == f && final(self).position() == f.at,
            },
            old(self).position() <= final(self).position() <= old(self).tokens().len(),
            no_eof(
                old(self).tokens(),
                old(self).position(),
                final(self).position() - old(self).position(),
            ),
            r is Ok ==> at_end(old(self).tokens(), final(self).position()),
    {
        let ghost tokens = self.tokens();
        let ghost start = self.position();
        proof {
            lemma_parse_program(tokens, start, Seq::empty());
        }
        let mut program: Vec<Stmt> = Vec::new();
        assert(stmts_view(program) =~= Seq::<StmtView>::empty());
        while !self.is_at_end()
            invariant
                self.wf(),
                self.tokens() == tokens,
                tokens == old(self).tokens(),
                start == old(self).position(),
                start <= self.position() <= tokens.len(),
                within(tokens, start, parse_program(tokens, start, Seq::empty())),
                parse_program(tokens, start, Seq::empty()) matches Ok((_, n)) ==> at_end(
                    tokens,
                    start + n,
                ),
                parse_program(tokens, start, Seq::empty()) == after(
                    (self.position() - start) as nat,
                    parse_program(tokens, self.position(), stmts_view(program)),
                ),
            decreases remaining(tokens, self.position()),
        {
            let ghost before = program;
            let stmt = self.declaration()?;
            program.push(stmt);
            proof {
                lemma_stmts_view_push(before, program, stmt);
            }
        }
        Ok(program)
    }

    /// Parses a function definition, a binding or a statement.
    pub fn declaration(&mut self) -> (r: Result<Stmt, ParseError>)
        requires
            old(self).wf(),
        ensures
            final(self).wf(),
            final(self).tokens() == old(self).tokens(),
            agrees(
                parse_declaration(old(self).tokens(), old(self).position()),
                old(self).position(),
                final(self).position(),
                r,
            ),
            r is Ok ==> old(self).position() < final(self).position() <= old(self).tokens().len(),
        decreases remaining(old(self).tokens(), old(self).position()), 3nat,
    {
        match self.peek() {
            Token::Def => self.function(),
            Token::Let => self.let_stmt(),
            _ => self.statement(),
        }
    }

    /// Parses a function definition: its signature and its body.
    pub fn function(&mut self) -> (r: Result<Stmt, ParseError>)
        requires
            old(self).wf(),
        ensures
            final(self).wf(),
            final(self).tokens() == old(self).tokens(),
            agrees(
                parse_function(old(self).tokens(), old(self).position()),
                old(self).position(),
                final(self).position(),
                r,
            ),
            r is Ok ==> old(self).position() < final(self).position() <= old(self).tokens().len(),
        decreases remaining(old(self).tokens(), old(self).position()), 2nat,
    {
        let (name, params, return_type) = self.signature()?;
        let body = self.suite()?;
        Ok(Stmt::Function(FunctionDef { name, params, return_type, body }))
    }

    /// Parses the head of a function definition: `def`, the name, the
    /// parameters in parentheses, `->` and the return type.
    pub fn signature(&mut self) -> (r: Result<(String, Vec<(String, Type)>, Type), ParseError>)
        requires
            old(self).wf(),
        ensures
            final(self).wf(),
            final(self).tokens() == old(self).tokens(),
            match parse_signature(old(self).tokens(), old(self).position()) {
                Ok((sig, n)) => r is Ok && r->Ok_0.0@ == sig.name && params_view(r->Ok_0.1)
                    == sig.params && r->Ok_0.2@ == sig.return_type && final(self).position()
                    == old(self).position() + n,
                Err(f) => r is Err && r->Err_0@ == f && final(self).position() == f.at,
            },
            r is Ok ==> old(self).position() < final(self).position() <= old(self).tokens().len(),
    {
        reveal(parse_signature);
        self.consume(&Token::Def)?;
        let name = self.consume_ident()?;
        self.consume(&Token::LParen)?;
        let params = self.parameters()?;
        self.consume(&Token::RParen)?;
        self.consume(&Token::Arrow)?;
        let return_type = self.parse_type()?;
        Ok((name, params, return_type))
    }

    /// Parses the parameters of a function up to, and without, the closing
    /// parenthesis: each a name, a colon and a type, and after each a comma
    /// or that parenthesis.
    pub fn parameters(&mut self) -> (r: Result<Vec<(String, Type)>, ParseError>)
        requires
            old(self).wf(),
        ensures
            final(self).wf(),
            final(self).tokens() == old(self).tokens(),
            match parse_params(old(self).tokens(), old(self).position(), Seq::empty()) {
                Ok((params, n)) => r is Ok && params_view(r->Ok_0) == params
                    && final(self).position() == old(self).position() + n,
                Err(f) => r is Err && r->Err_0@ == f && final(self).position() == f.at,
            },
            r is Ok ==> final(self).position() <= old(self).tokens().len(),
    {
        let ghost tokens = self.tokens();
        let ghost start = self.position();
        let mut params: Vec<(String, Type)> = Vec::new();
        assert(params_view(params) =~= Seq::<(Seq<char>, TypeView)>::empty());
        while !matches!(self.peek(), Token::RParen)
            invariant
                self.wf(),
                self.tokens() == tokens,
                tokens == old(self).tokens(),
                start == old(self).position(),
                start <= self.position() <= tokens.len(),
                parse_params(tokens, start, Seq::empty()) == after(
                    (self.position() - start) as nat,
                    parse_params(tokens, self.position(), params_view(params)),
                ),
            decreases remaining(tokens, self.position()),
        {
            let ghost before = params;
            let ghost here = self.position();
            let name = self.consume_ident()?;
            self.consume(&Token::Colon)?;
            let ty = self.parse_type()?;
            params.push((name, ty));
            proof {
                lemma_params_view_push(before, params, (name, ty));
            }
            if matches!(self.peek(), Token::Comma) {
                self.advance();
            } else if !matches!(self.peek(), Token::RParen) {
                return Err(self.unexpected(Expected::Separator));
            }
            proof {
                lemma_params_view_push(before, params, (name, ty));
                let taken = (self.position() - here) as nat;
                assert(parse_params(tokens, here, params_view(before)) == after(
                    taken,
                    parse_params(tokens, self.position(), params_view(params)),
                ));
            }
        }
        Ok(params)
    }

    /// Parses a binding: `let`, the name, an optional `: type`, `=` and the value.
    pub fn let_stmt(&mut self) -> (r: Result<Stmt, ParseError>)
        requires
            old(self).wf(),
        ensures
            final(self).wf(),
            final(self).tokens() == old(self).tokens(),
            agrees(
                parse_let(old(self).tokens(), old(self).position()),
                old(self).position(),
                final(self).position(),
                r,
            ),
            r is Ok ==> old(self).position() < final(self).position() <= old(self).tokens().len(),
    {
        reveal(parse_let);
        self.consume(&Token::Let)?;
        let name = self.consume_ident()?;
        let annotation = if matches!(self.peek(), Token::Colon) {
            self.advance();
            Some(self.parse_type()?)
        } else {
            None
        };
        self.consume(&Token::Eq)?;
        let expr = self.expression()?;
        Ok(Stmt::Let(name, annotation, expr))
    }

    /// Parses a statement, told by its first token: `return`, `pass`,
    /// `if`, `while`, `for`, an assignment or a bare expression.
    pub fn statement(&mut self) -> (r: Result<Stmt, ParseError>)
        requires
            old(self).wf(),
        ensures
            final(self).wf(),
            final(self).tokens() == old(self).tokens(),
            agrees(
                parse_statement(old(self).tokens(), old(self).position()),
                old(self).position(),
                final(self).position(),
                r,
            ),
            r is Ok ==> old(self).position() < final(self).position() <= old(self).tokens().len(),
        decreases remaining(old(self).tokens(), old(self).position()), 2nat,
    {
        reveal(parse_return);
        reveal(parse_simple);
        match self.peek() {
            Token::Return => {
                self.advance();
                if !matches!(self.peek(), Token::Newline) {
                    let expr = self.expression()?;
                    Ok(Stmt::Return(Some(expr)))
                } else {
                    Ok(Stmt::Return(None))
                }
            },
            Token::Pass => {
                self.advance();
                Ok(Stmt::Pass)
            },
            Token::If => self.if_stmt(),
            Token::While => self.while_stmt(),
            Token::For => self.for_stmt(),
            _ => {
                if self.is_assignment() {
                    let name = self.consume_ident()?;
                    self.consume(&Token::Eq)?;
                    let expr = self.expression()?;
                    Ok(Stmt::Assign(name, expr))
                } else {
                    let expr = self.expression()?;
                    Ok(Stmt::Expr(expr))
                }
            },
        }
    }

    /// Parses a conditional: `if`, the condition, the body and, after
    /// `else`, the other body.
    pub fn if_stmt(&mut self) -> (r: Result<Stmt, ParseError>)
        requires
            old(self).wf(),
        ensures
            final(self).wf(),
            final(self).tokens() == old(self).tokens(),
            agrees(
                parse_if(old(self).tokens(), old(self).position()),
                old(self).position(),
                final(self).position(),
                r,
            ),
            r is Ok ==> old(self).position() < final(self).position() <= old(self).tokens().len(),
        decreases remaining(old(self).tokens(), old(self).position()), 1nat,
    {
        self.consume(&Token::If)?;
        let condition = self.expression()?;
        let then_block = self.suite()?;
        let else_block = if matches!(self.peek(), Token::Else) {
            self.advance();
            Some(self.suite()?)
        } else {
            None
        };
        Ok(Stmt::Expr(Expr::If(Box::new(condition), then_block, else_block)))
    }

    /// Parses a loop: `while`, the condition and the body.
    pub fn while_stmt(&mut self) -> (r: Result<Stmt, ParseError>)
        requires
            old(self).wf(),
        ensures
            final(self).wf(),
            final(self).tokens() == old(self).tokens(),
            agrees(
                parse_while(old(self).tokens(), old(self).position()),
                old(self).position(),
                final(self).position(),
                r,
            ),
            r is Ok ==> old(self).position() < final(self).position() <= old(self).tokens().len(),
        decreases remaining(old(self).tokens(), old(self).position()), 1nat,
    {
        self.consume(&Token::While)?;
        let condition = self.expression()?;
        let body = self.suite()?;
        Ok(Stmt::Expr(Expr::While(Box::new(condition), body)))
    }

    /// Parses a loop: `for`, the variable, `in`, the iterable and the body.
    pub fn for_stmt(&mut self) -> (r: Result<Stmt, ParseError>)
        requires
            old(self).wf(),
        ensures
            final(self).wf(),
            final(self).tokens() == old(self).tokens(),
            agrees(
                parse_for(old(self).tokens(), old(self).position()),
                old(self).position(),
                final(self).position(),
                r,
            ),
            r is Ok ==> old(self).position() < final(self).position() <= old(self).tokens().len(),
        decreases remaining(old(self).tokens(), old(self).position()), 1nat,
    {
        self.consume(&Token::For)?;
        let var = self.consume_ident()?;
        self.consume(&Token::In)?;
        let iterable = self.expression()?;
        let body = self.suite()?;
        Ok(Stmt::Expr(Expr::For(var, Box::new(iterable), body)))
    }

    /// Parses what opens a block, a colon, a line break and an `Indent`,
    /// and then the block.
    pub fn suite(&mut self) -> (r: Result<Block, ParseError>)
        requires
            old(self).wf(),
        ensures
            final(self).wf(),
            final(self).tokens() == old(self).tokens(),
            agrees(
                parse_suite(old(self).tokens(), old(self).position()),
                old(self).position(),
                final(self).position(),
                r,
            ),
            r is Ok ==> old(self).position() < final(self).position() <= old(self).tokens().len(),
        decreases remaining(old(self).tokens(), old(self).position()), 0nat,
    {
        self.consume(&Token::Colon)?;
        self.consume(&Token::Newline)?;
        self.consume(&Token::Indent)?;
        self.block()
    }

    /// Parses the statements of a block, up to and with its `Dedent` or up
    /// to the end of the tokens.
    pub fn block(&mut self) -> (r: Result<Block, ParseError>)
        requires
            old(self).wf(),
        ensures
            final(self).wf(),
            final(self).tokens() == old(self).tokens(),
            agrees(
                parse_block(old(self).tokens(), old(self).position(), Seq::empty()),
                old(self).position(),
                final(self).position(),
                r,
            ),
            r is Ok ==> old(self).position() <= final(self).position() <= old(self).tokens().len(),
        decreases remaining(old(self).tokens(), old(self).position()), 4nat,
    {
        let ghost tokens = self.tokens();
        let ghost start = self.position();
        let mut stmts: Vec<Stmt> = Vec::new();
        assert(stmts_view(stmts) =~= Seq::<StmtView>::empty());
        while !matches!(self.peek(), Token::Dedent) && !self.is_at_end()
            invariant
                self.wf(),
                self.tokens() == tokens,
                tokens == old(self).tokens(),
                start == old(self).position(),
                start <= self.position() <= tokens.len(),
                parse_block(tokens, start, Seq::empty()) == after(
                    (self.position() - start) as nat,
                    parse_block(tokens, self.position(), stmts_view(stmts)),
                ),
            decreases remaining(tokens, self.position()),
        {
            let ghost before = stmts;
            let ghost here = self.position();
            let stmt = self.declaration()?;
            stmts.push(stmt);
            if matches!(self.peek(), Token::Newline) {
                self.advance();
            }
            proof {
                lemma_stmts_view_push(before, stmts, stmt);
                let taken = (self.position() - here) as nat;
                assert(parse_block(tokens, here, stmts_view(before)) == after(
                    taken,
                    parse_block(tokens, self.position(), stmts_view(stmts)),
                ));
            }
        }
        if matches!(self.peek(), Token::Dedent) {
            self.advance();
        }
        Ok(Block(stmts))
    }

    /// Parses an expression.
    pub fn expression(&mut self) -> (r: Result<Expr, ParseError>)
        requires
            old(self).wf(),
        ensures
            final(self).wf(),
            final(self).tokens() == old(self).tokens(),
            agrees(
                parse_expression(old(self).tokens(), old(self).position()),
                old(self).position(),
                final(self).position(),
                r,
            ),
            r is Ok ==> old(self).position() < final(self).position() <= old(self).tokens().len(),
        decreases remaining(old(self).tokens(), old(self).position()), 10nat,
    {
        self.tier(0)
    }

    /// Parses an expression of binary tier `level` or tighter: an operand
    /// of the next tier, then every operator of this tier with its right
    /// operand, folded to the left. Tier 6 is that of the prefix operators.
    pub fn tier(&mut self, level: u8) -> (r: Result<Expr, ParseError>)
        requires
            old(self).wf(),
            level <= 6,
        ensures
            final(self).wf(),
            final(self).tokens() == old(self).tokens(),
            agrees(
                parse_tier(old(self).tokens(), old(self).position(), level as nat),
                old(self).position(),
                final(self).position(),
                r,
            ),
            r is Ok ==> old(self).position() < final(self).position() <= old(self).tokens().len(),
        decreases remaining(old(self).tokens(), old(self).position()),
            (if level >= 6 {
                3nat
            } else {
                (9 - level) as nat
            }),
    {
        if level >= 6 {
            return self.unary();
        }
        let ghost tokens = self.tokens();
        let ghost start = self.position();
        let mut expr = self.tier(level + 1)?;
        loop
            invariant
                self.wf(),
                self.tokens() == tokens,
                tokens == old(self).tokens(),
                start == old(self).position(),
                level < 6,
                start < self.position() <= tokens.len(),
                parse_tier(tokens, start, level as nat) == after(
                    (self.position() - start) as nat,
                    fold_tier(tokens, self.position(), level as nat, expr@),
                ),
            decreases remaining(tokens, self.position()),
        {
            let op = match binary_operator(level, self.peek()) {
                Some(op) => op,
                None => {
                    return Ok(expr);
                },
            };
            self.advance();
            let right = self.tier(level + 1)?;
            expr = Expr::BinaryOp(Box::new(expr), op, Box::new(right));
        }
    }

    /// Parses a prefix operator with its operand, or a call.
    pub fn unary(&mut self) -> (r: Result<Expr, ParseError>)
        requires
            old(self).wf(),
        ensures
            final(self).wf(),
            final(self).tokens() == old(self).tokens(),
            agrees(
                parse_tier(old(self).tokens(), old(self).position(), 6),
                old(self).position(),
                final(self).position(),
                r,
            ),
            r is Ok ==> old(self).position() < final(self).position() <= old(self).tokens().len(),
        decreases remaining(old(self).tokens(), old(self).position()), 2nat,
    {
        match self.peek() {
            Token::Not => {
                self.advance();
                let operand = self.unary()?;
                Ok(Expr::UnaryOp(UnaryOp::Not, Box::new(operand)))
            },
            Token::Minus => {
                self.advance();
                let operand = self.unary()?;
                Ok(Expr::UnaryOp(UnaryOp::Neg, Box::new(operand)))
            },
            _ => self.call(),
        }
    }

    /// Parses a primary and the argument lists that follow it at once.
    pub fn call(&mut self) -> (r: Result<Expr, ParseError>)
        requires
            old(self).wf(),
        ensures
            final(self).wf(),
            final(self).tokens() == old(self).tokens(),
            agrees(
                parse_call(old(self).tokens(), old(self).position()),
                old(self).position(),
                final(self).position(),
                r,
            ),
            r is Ok ==> old(self).position() < final(self).position() <= old(self).tokens().len(),
        decreases remaining(old(self).tokens(), old(self).position()), 1nat,
    {
        let ghost tokens = self.tokens();
        let ghost start = self.position();
        let mut expr = self.primary()?;
        loop
            invariant
                self.wf(),
                self.tokens() == tokens,
                tokens == old(self).tokens(),
                start == old(self).position(),
                start < self.position() <= tokens.len(),
                parse_call(tokens, start) == after(
                    (self.position() - start) as nat,
                    call_suffix(tokens, self.position(), expr@),
                ),
            decreases remaining(tokens, self.position()),
        {
            if !matches!(self.peek(), Token::LParen) {
                return Ok(expr);
            }
            self.advance();
            let args = self.arguments()?;
            self.consume(&Token::RParen)?;
            expr =
            match expr {
                Expr::Variable(name) => Expr::Call(name, args),
                other => other,
            };
        }
    }

    /// Parses the arguments of a call up to, and without, the closing
    /// parenthesis: after each argument a comma or that parenthesis.
    pub fn arguments(&mut self) -> (r: Result<Vec<Expr>, ParseError>)
        requires
            old(self).wf(),
        ensures
            final(self).wf(),
            final(self).tokens() == old(self).tokens(),
            match parse_args(old(self).tokens(), old(self).position(), Seq::empty()) {
                Ok((args, n)) => r is Ok && exprs_view(r->Ok_0) == args && final(self).position()
                    == old(self).position() + n,
                Err(f) => r is Err && r->Err_0@ == f && final(self).position() == f.at,
            },
            r is Ok ==> final(self).position() <= old(self).tokens().len(),
        decreases remaining(old(self).tokens(), old(self).position()), 11nat,
    {
        let ghost tokens = self.tokens();
        let ghost start = self.position();
        let mut args: Vec<Expr> = Vec::new();
        assert(exprs_view(args) =~= Seq::<ExprView>::empty());
        loop
            invariant
                self.wf(),
                self.tokens() == tokens,
                tokens == old(self).tokens(),
                start == old(self).position(),
                start <= self.position() <= tokens.len(),
                parse_args(tokens, start, Seq::empty()) == after(
                    (self.position() - start) as nat,
                    parse_args(tokens, self.position(), exprs_view(args)),
                ),
            decreases remaining(tokens, self.position()),
        {
            if matches!(self.peek(), Token::RParen) {
                return Ok(args);
            }
            let ghost before = args;
            let ghost here = self.position();
            let arg = self.expression()?;
            args.push(arg);
            proof {
                lemma_exprs_view_push(before, args, arg);
            }
            if matches!(self.peek(), Token::Comma) {
                self.advance();
            } else if !matches!(self.peek(), Token::RParen) {
                return Err(self.unexpected(Expected::Separator));
            }
            proof {
                lemma_exprs_view_push(before, args, arg);
                let taken = (self.position() - here) as nat;
                assert(parse_args(tokens, here, exprs_view(before)) == after(
                    taken,
                    parse_args(tokens, self.position(), exprs_view(args)),
                ));
            }
        }
    }

    /// Parses a literal, a variable or a parenthesised expression.
    pub fn primary(&mut self) -> (r: Result<Expr, ParseError>)
        requires
            old(self).wf(),
        ensures
            final(self).wf(),
            final(self).tokens() == old(self).tokens(),
            agrees(
                parse_primary(old(self).tokens(), old(self).position()),
                old(self).position(),
                final(self).position(),
                r,
            ),
            r is Ok ==> old(self).position() < final(self).position() <= old(self).tokens().len(),
        decreases remaining(old(self).tokens(), old(self).position()), 0nat,
    {
        match self.peek() {
            Token::True => {
                self.advance();
                Ok(Expr::Literal(Literal::Bool(true)))
            },
            Token::False => {
                self.advance();
                Ok(Expr::Literal(Literal::Bool(false)))
            },
            Token::Int(n) => {
                let n = *n;
                self.advance();
                Ok(Expr::Literal(Literal::Int(n)))
            },
            Token::Float(text) => {
                let text = text.clone();
                self.advance();
                Ok(Expr::Literal(Literal::Float(text)))
            },
            Token::String(s) => {
                let s = s.clone();
                self.advance();
                Ok(Expr::Literal(Literal::String(s)))
            },
            Token::Ident(name) => {
                let name = name.clone();
                self.advance();
                Ok(Expr::Variable(name))
            },
            Token::LParen => {
                self.advance();
                let expr = self.expression()?;
                self.consume(&Token::RParen)?;
                Ok(expr)
            },
            _ => Err(self.unexpected(Expected::Expression)),
        }
    }
}

/// The binary operator that `token` denotes on tier `level`, if any.
pub fn binary_operator(level: u8, token: &Token) -> (op: Option<BinOp>)
    ensures
        op == operator_at(level as nat, token@),
{
    match (level, token) {
        (0, Token::Or) => Some(BinOp::Or),
        (1, Token::And) => Some(BinOp::And),
        (2, Token::EqEq) => Some(BinOp::Eq),
        (2, Token::Ne) => Some(BinOp::Ne),
        (3, Token::Gt) => Some(BinOp::Gt),
        (3, Token::Ge) => Some(BinOp::Ge),
        (3, Token::Lt) => Some(BinOp::Lt),
        (3, Token::Le) => Some(BinOp::Le),
        (4, Token::Plus) => Some(BinOp::Add),
        (4, Token::Minus) => Some(BinOp::Sub),
        (5, Token::Star) => Some(BinOp::Mul),
        (5, Token::Slash) => Some(BinOp::Div),
        (5, Token::Percent) => Some(BinOp::Mod),
        _ => None,
    }
}

} // verus!
