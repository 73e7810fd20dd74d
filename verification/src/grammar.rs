//! The grammar, as functions from a token sequence and a position to the
//! tree that starts there and the number of tokens it takes.
//!
//! Binary operators form six tiers, loosest first: `or`; `and`; `==` `!=`;
//! `<` `>` `<=` `>=`; `+` `-`; `*` `/` `%`. Each tier folds to the left.
//! Above them stand the prefix operators, then calls, then primaries.

use crate::ast::{
    is_plain, BinOp, ExprView, FunctionDefView, LiteralView, StmtView, TypeView, UnaryOp,
};
use crate::token::{same_kind, TokenView};
use vstd::prelude::*;

verus! {

/// What the parser was looking for when it met a token that does not fit.
pub enum ExpectedView {
    /// A token of the same kind as this one.
    Token(TokenView),
    Identifier,
    TypeName,
    /// The start of an expression.
    Expression,
    /// A comma, or the parenthesis that closes the list.
    Separator,
}

/// A syntax error: what was expected, the token found instead and its
/// index in the token sequence.
pub struct SyntaxFault {
    pub expected: ExpectedView,
    pub found: TokenView,
    pub at: int,
}

/// The outcome of parsing at a position: a value and the number of tokens
/// it takes, or the first error.
pub type Parse<T> = Result<(T, nat), SyntaxFault>;

/// The token at `pos`; past the end of the sequence it is `EOF`.
pub open spec fn peek(tokens: Seq<TokenView>, pos: int) -> TokenView {
    if 0 <= pos < tokens.len() {
        tokens[pos]
    } else {
        TokenView::EOF
    }
}

/// The number of tokens from `pos` on.
pub open spec fn remaining(tokens: Seq<TokenView>, pos: int) -> nat {
    if pos <= tokens.len() {
        (tokens.len() - pos) as nat
    } else {
        0
    }
}

/// Nothing is left to parse at `pos`.
pub open spec fn at_end(tokens: Seq<TokenView>, pos: int) -> bool {
    peek(tokens, pos) == TokenView::EOF
}

/// The error of meeting the token at `pos` where `expected` should stand.
pub open spec fn fault(expected: ExpectedView, tokens: Seq<TokenView>, pos: int) -> SyntaxFault {
    SyntaxFault { expected, found: peek(tokens, pos), at: pos }
}

/// None of the `n` tokens from `pos` on is `EOF`.
pub open spec fn no_eof(tokens: Seq<TokenView>, pos: int, n: int) -> bool {
    forall|i: int| pos <= i < pos + n ==> (#[trigger] tokens[i]) != TokenView::EOF
}

/// A parse from `pos` keeps to the tokens: what it passes, which on
/// success is the tokens it takes and on failure the tokens before the
/// fault, lies within the tokens and holds no `EOF`.
pub open spec fn within<T>(tokens: Seq<TokenView>, pos: int, r: Parse<T>) -> bool {
    match r {
        Ok((_, n)) => pos + n <= tokens.len() && no_eof(tokens, pos, n as int),
        Err(f) => pos <= f.at <= tokens.len() && no_eof(tokens, pos, f.at - pos),
    }
}

/// `r`, after `k` tokens that were taken before it.
pub open spec fn after<T>(k: nat, r: Parse<T>) -> Parse<T> {
    match r {
        Ok((value, n)) => Ok((value, k + n)),
        Err(f) => Err(f),
    }
}

/// A token of the kind of `kind` stands at `pos`: the number of tokens
/// taken, which is one unless the token is the final `EOF`.
pub open spec fn expect(tokens: Seq<TokenView>, pos: int, kind: TokenView) -> Result<
    nat,
    SyntaxFault,
> {
    if same_kind(peek(tokens, pos), kind) {
        Ok(
            if at_end(tokens, pos) {
                0nat
            } else {
                1nat
            },
        )
    } else {
        Err(fault(ExpectedView::Token(kind), tokens, pos))
    }
}

/// An identifier stands at `pos`.
pub open spec fn expect_ident(tokens: Seq<TokenView>, pos: int) -> Parse<Seq<char>> {
    match peek(tokens, pos) {
        TokenView::Ident(name) => Ok((name, 1nat)),
        _ => Err(fault(ExpectedView::Identifier, tokens, pos)),
    }
}

/// The type that a name denotes.
pub open spec fn type_named(name: Seq<char>) -> TypeView {
    if name == "int"@ {
        TypeView::Int
    } else if name == "float"@ {
        TypeView::Float
    } else if name == "string"@ {
        TypeView::String
    } else if name == "bool"@ {
        TypeView::Bool
    } else if name == "void"@ {
        TypeView::Void
    } else {
        TypeView::Custom(name)
    }
}

/// A type name stands at `pos`.
pub open spec fn parse_type(tokens: Seq<TokenView>, pos: int) -> Parse<TypeView> {
    match peek(tokens, pos) {
        TokenView::Ident(name) => Ok((type_named(name), 1nat)),
        _ => Err(fault(ExpectedView::TypeName, tokens, pos)),
    }
}

/// What opens a block: a colon, a line break and an `Indent`.
pub open spec fn block_start(tokens: Seq<TokenView>, pos: int) -> Result<nat, SyntaxFault> {
    match expect(tokens, pos, TokenView::Colon) {
        Err(f) => Err(f),
        Ok(a) => match expect(tokens, pos + a, TokenView::Newline) {
            Err(f) => Err(f),
            Ok(b) => match expect(tokens, pos + a + b, TokenView::Indent) {
                Err(f) => Err(f),
                Ok(c) => Ok(a + b + c),
            },
        },
    }
}

/// The number of binary tiers.
pub open spec fn tiers() -> nat {
    6
}

/// The binary operator that `t` denotes on tier `level`, if any.
pub open spec fn operator_at(level: nat, t: TokenView) -> Option<BinOp> {
    if level == 0 {
        match t {
            TokenView::Or => Some(BinOp::Or),
            _ => None,
        }
    } else if level == 1 {
        match t {
            TokenView::And => Some(BinOp::And),
            _ => None,
        }
    } else if level == 2 {
        match t {
            TokenView::EqEq => Some(BinOp::Eq),
            TokenView::Ne => Some(BinOp::Ne),
            _ => None,
        }
    } else if level == 3 {
        match t {
            TokenView::Gt => Some(BinOp::Gt),
            TokenView::Ge => Some(BinOp::Ge),
            TokenView::Lt => Some(BinOp::Lt),
            TokenView::Le => Some(BinOp::Le),
            _ => None,
        }
    } else if level == 4 {
        match t {
            TokenView::Plus => Some(BinOp::Add),
            TokenView::Minus => Some(BinOp::Sub),
            _ => None,
        }
    } else if level == 5 {
        match t {
            TokenView::Star => Some(BinOp::Mul),
            TokenView::Slash => Some(BinOp::Div),
            TokenView::Percent => Some(BinOp::Mod),
            _ => None,
        }
    } else {
        None
    }
}

/// A prefix operator applied to the outcome of parsing its operand.
pub open spec fn prefixed(op: UnaryOp, operand: Parse<ExprView>) -> Parse<ExprView> {
    match operand {
        Ok((x, n)) => Ok((ExprView::UnaryOp(op, Box::new(x)), 1 + n)),
        Err(f) => Err(f),
    }
}

/// A parenthesised argument list applied to `callee`: a variable becomes a
/// call of that name; anything else stays as it is.
pub open spec fn apply(callee: ExprView, args: Seq<ExprView>) -> ExprView {
    match callee {
        ExprView::Variable(name) => ExprView::Call(name, args),
        _ => callee,
    }
}

/// An expression starts at `pos`.
pub open spec fn parse_expression(tokens: Seq<TokenView>, pos: int) -> Parse<ExprView>
    decreases remaining(tokens, pos), 10nat,
{
    parse_tier(tokens, pos, 0)
}

/// An expression of tier `level` or tighter starts at `pos`. Past the
/// binary tiers it is a prefix operator with its operand, or a call.
pub open spec fn parse_tier(tokens: Seq<TokenView>, pos: int, level: nat) -> Parse<ExprView>
    decreases remaining(tokens, pos),
        (if level >= tiers() {
            2nat
        } else {
            (9 - level) as nat
        }),
{
    if level >= tiers() {
        match peek(tokens, pos) {
            TokenView::Not => prefixed(UnaryOp::Not, parse_tier(tokens, pos + 1, level)),
            TokenView::Minus => prefixed(UnaryOp::Neg, parse_tier(tokens, pos + 1, level)),
            _ => parse_call(tokens, pos),
        }
    } else {
        match parse_tier(tokens, pos, level + 1) {
            Err(f) => Err(f),
            Ok((left, n)) => after(n, fold_tier(tokens, pos + n, level, left)),
        }
    }
}

/// What follows an operand of tier `level`: while an operator of the tier
/// stands at `pos`, it and its right operand are folded into `left`.
pub open spec fn fold_tier(tokens: Seq<TokenView>, pos: int, level: nat, left: ExprView) -> Parse<
    ExprView,
>
    decreases remaining(tokens, pos), 0nat,
{
    match operator_at(level, peek(tokens, pos)) {
        None => Ok((left, 0nat)),
        Some(op) => match parse_tier(tokens, pos + 1, level + 1) {
            Err(f) => Err(f),
            Ok((right, n)) => after(
                1 + n,
                fold_tier(
                    tokens,
                    pos + 1 + n,
                    level,
                    ExprView::BinaryOp(Box::new(left), op, Box::new(right)),
                ),
            ),
        },
    }
}

/// A primary, and every parenthesised argument list that follows it at once.
pub open spec fn parse_call(tokens: Seq<TokenView>, pos: int) -> Parse<ExprView>
    decreases remaining(tokens, pos), 1nat,
{
    match parse_primary(tokens, pos) {
        Err(f) => Err(f),
        Ok((callee, n)) => after(n, call_suffix(tokens, pos + n, callee)),
    }
}

/// The argument lists that follow `callee` from `pos` on, applied in turn.
pub open spec fn call_suffix(tokens: Seq<TokenView>, pos: int, callee: ExprView) -> Parse<ExprView>
    decreases remaining(tokens, pos), 0nat,
{
    if peek(tokens, pos) != TokenView::LParen {
        Ok((callee, 0nat))
    } else {
        match parse_args(tokens, pos + 1, Seq::empty()) {
            Err(f) => Err(f),
            Ok((args, n)) => match expect(tokens, pos + 1 + n, TokenView::RParen) {
                Err(f) => Err(f),
                Ok(m) => after(
                    1 + n + m,
                    call_suffix(tokens, pos + 1 + n + m, apply(callee, args)),
                ),
            },
        }
    }
}

/// The arguments from `pos` up to, and without, the closing parenthesis,
/// after the arguments `acc`. After an argument stands a comma, which is
/// taken, or the closing parenthesis; a comma may stand after the last one.
pub open spec fn parse_args(tokens: Seq<TokenView>, pos: int, acc: Seq<ExprView>) -> Parse<
    Seq<ExprView>,
>
    decreases remaining(tokens, pos), 11nat,
{
    if peek(tokens, pos) == TokenView::RParen {
        Ok((acc, 0nat))
    } else {
        match parse_expression(tokens, pos) {
            Err(f) => Err(f),
            Ok((arg, n)) => if peek(tokens, pos + n) == TokenView::Comma {
                after(n + 1, parse_args(tokens, pos + n + 1, acc.push(arg)))
            } else if peek(tokens, pos + n) == TokenView::RParen {
                Ok((acc.push(arg), n))
            } else {
                Err(fault(ExpectedView::Separator, tokens, pos + n))
            },
        }
    }
}

/// A literal, a variable or a parenthesised expression stands at `pos`.
pub open spec fn parse_primary(tokens: Seq<TokenView>, pos: int) -> Parse<ExprView>
    decreases remaining(tokens, pos), 0nat,
{
    match peek(tokens, pos) {
        TokenView::True => Ok((ExprView::Literal(LiteralView::Bool(true)), 1nat)),
        TokenView::False => Ok((ExprView::Literal(LiteralView::Bool(false)), 1nat)),
        TokenView::Int(n) => Ok((ExprView::Literal(LiteralView::Int(n)), 1nat)),
        TokenView::Float(text) => Ok((ExprView::Literal(LiteralView::Float(text)), 1nat)),
        TokenView::String(text) => Ok((ExprView::Literal(LiteralView::String(text)), 1nat)),
        TokenView::Ident(name) => Ok((ExprView::Variable(name), 1nat)),
        TokenView::LParen => match parse_expression(tokens, pos + 1) {
            Err(f) => Err(f),
            Ok((e, n)) => match expect(tokens, pos + 1 + n, TokenView::RParen) {
                Err(f) => Err(f),
                Ok(m) => Ok((e, 1 + n + m)),
            },
        },
        _ => Err(fault(ExpectedView::Expression, tokens, pos)),
    }
}

/// An identifier directly followed by `=` stands at `pos`.
pub open spec fn is_assignment(tokens: Seq<TokenView>, pos: int) -> bool {
    peek(tokens, pos) is Ident && peek(tokens, pos + 1) == TokenView::Eq
}

/// The type annotation at `pos`, if a colon stands there.
pub open spec fn parse_annotation(tokens: Seq<TokenView>, pos: int) -> Parse<Option<TypeView>> {
    if peek(tokens, pos) == TokenView::Colon {
        match parse_type(tokens, pos + 1) {
            Err(f) => Err(f),
            Ok((ty, n)) => Ok((Some(ty), 1 + n)),
        }
    } else {
        Ok((None, 0nat))
    }
}

/// A binding: `let`, a name, an optional `: type`, `=` and an expression.
#[verifier::opaque]
pub open spec fn parse_let(tokens: Seq<TokenView>, pos: int) -> Parse<StmtView> {
    match expect(tokens, pos, TokenView::Let) {
        Err(f) => Err(f),
        Ok(a) => match expect_ident(tokens, pos + a) {
            Err(f) => Err(f),
            Ok((name, b)) => match parse_annotation(tokens, pos + a + b) {
                Err(f) => Err(f),
                Ok((ty, c)) => match expect(tokens, pos + a + b + c, TokenView::Eq) {
                    Err(f) => Err(f),
                    Ok(d) => match parse_expression(tokens, pos + a + b + c + d) {
                        Err(f) => Err(f),
                        Ok((e, n)) => Ok((StmtView::Let(name, ty, e), a + b + c + d + n)),
                    },
                },
            },
        },
    }
}

/// The parameters from `pos` up to, and without, the closing parenthesis,
/// after the parameters `acc`: each a name, a colon and a type. After a
/// parameter stands a comma, which is taken, or the closing parenthesis; a
/// comma may stand after the last one.
pub open spec fn parse_params(
    tokens: Seq<TokenView>,
    pos: int,
    acc: Seq<(Seq<char>, TypeView)>,
) -> Parse<Seq<(Seq<char>, TypeView)>>
    decreases remaining(tokens, pos),
{
    if peek(tokens, pos) == TokenView::RParen {
        Ok((acc, 0nat))
    } else {
        match expect_ident(tokens, pos) {
            Err(f) => Err(f),
            Ok((name, a)) => match expect(tokens, pos + a, TokenView::Colon) {
                Err(f) => Err(f),
                Ok(b) => match parse_type(tokens, pos + a + b) {
                    Err(f) => Err(f),
                    Ok((ty, c)) => {
                        let n = a + b + c;
                        if peek(tokens, pos + n) == TokenView::Comma {
                            after(n + 1, parse_params(tokens, pos + n + 1, acc.push((name, ty))))
                        } else if peek(tokens, pos + n) == TokenView::RParen {
                            Ok((acc.push((name, ty)), n))
                        } else {
                            Err(fault(ExpectedView::Separator, tokens, pos + n))
                        }
                    },
                },
            },
        }
    }
}

/// The head of a function definition: its name, parameters and return type.
pub struct Signature {
    pub name: Seq<char>,
    pub params: Seq<(Seq<char>, TypeView)>,
    pub return_type: TypeView,
}

/// `def`, a name, the parenthesised parameters, `->` and the return type.
#[verifier::opaque]
pub open spec fn parse_signature(tokens: Seq<TokenView>, pos: int) -> Parse<Signature> {
    match expect(tokens, pos, TokenView::Def) {
        Err(f) => Err(f),
        Ok(a) => match expect_ident(tokens, pos + a) {
            Err(f) => Err(f),
            Ok((name, b)) => match expect(tokens, pos + a + b, TokenView::LParen) {
                Err(f) => Err(f),
                Ok(c) => match parse_params(tokens, pos + a + b + c, Seq::empty()) {
                    Err(f) => Err(f),
                    Ok((params, d)) => match expect(
                        tokens,
                        pos + a + b + c + d,
                        TokenView::RParen,
                    ) {
                        Err(f) => Err(f),
                        Ok(e) => match expect(tokens, pos + a + b + c + d + e, TokenView::Arrow) {
                            Err(f) => Err(f),
                            Ok(g) => match parse_type(tokens, pos + a + b + c + d + e + g) {
                                Err(f) => Err(f),
                                Ok((return_type, h)) => Ok(
                                    (
                                        Signature { name, params, return_type },
                                        a + b + c + d + e + g + h,
                                    ),
                                ),
                            },
                        },
                    },
                },
            },
        },
    }
}

/// `return` with its value, unless a line break follows at once.
#[verifier::opaque]
pub open spec fn parse_return(tokens: Seq<TokenView>, pos: int) -> Parse<StmtView> {
    match expect(tokens, pos, TokenView::Return) {
        Err(f) => Err(f),
        Ok(a) => if peek(tokens, pos + a) == TokenView::Newline {
            Ok((StmtView::Return(None), a))
        } else {
            match parse_expression(tokens, pos + a) {
                Err(f) => Err(f),
                Ok((e, n)) => Ok((StmtView::Return(Some(e)), a + n)),
            }
        },
    }
}

/// An assignment, if a name and `=` stand at `pos`; else a bare expression.
#[verifier::opaque]
pub open spec fn parse_simple(tokens: Seq<TokenView>, pos: int) -> Parse<StmtView> {
    if is_assignment(tokens, pos) {
        match parse_expression(tokens, pos + 2) {
            Err(f) => Err(f),
            Ok((e, n)) => Ok((StmtView::Assign(peek(tokens, pos)->Ident_0, e), 2 + n)),
        }
    } else {
        match parse_expression(tokens, pos) {
            Err(f) => Err(f),
            Ok((e, n)) => Ok((StmtView::Expr(e), n)),
        }
    }
}

/// A declaration: a function definition, a binding or a statement.
pub open spec fn parse_declaration(tokens: Seq<TokenView>, pos: int) -> Parse<StmtView>
    decreases remaining(tokens, pos), 3nat,
{
    match peek(tokens, pos) {
        TokenView::Def => parse_function(tokens, pos),
        TokenView::Let => parse_let(tokens, pos),
        _ => parse_statement(tokens, pos),
    }
}

/// A function definition: its signature and its body.
pub open spec fn parse_function(tokens: Seq<TokenView>, pos: int) -> Parse<StmtView>
    decreases remaining(tokens, pos), 2nat,
{
    match parse_signature(tokens, pos) {
        Err(f) => Err(f),
        Ok((sig, a)) => match parse_suite(tokens, pos + a) {
            Err(f) => Err(f),
            Ok((body, b)) => Ok(
                (
                    StmtView::Function(
                        FunctionDefView {
                            name: sig.name,
                            params: sig.params,
                            return_type: sig.return_type,
                            body,
                        },
                    ),
                    a + b,
                ),
            ),
        },
    }
}

/// A statement, told by its first token.
pub open spec fn parse_statement(tokens: Seq<TokenView>, pos: int) -> Parse<StmtView>
    decreases remaining(tokens, pos), 2nat,
{
    match peek(tokens, pos) {
        TokenView::Return => parse_return(tokens, pos),
        TokenView::Pass => Ok((StmtView::Pass, 1nat)),
        TokenView::If => parse_if(tokens, pos),
        TokenView::While => parse_while(tokens, pos),
        TokenView::For => parse_for(tokens, pos),
        _ => parse_simple(tokens, pos),
    }
}

/// `if`, the condition and a suite; then, if `else` follows, that and its suite.
pub open spec fn parse_if(tokens: Seq<TokenView>, pos: int) -> Parse<StmtView>
    decreases remaining(tokens, pos), 1nat,
{
    match expect(tokens, pos, TokenView::If) {
        Err(f) => Err(f),
        Ok(a) => match parse_expression(tokens, pos + a) {
            Err(f) => Err(f),
            Ok((cond, b)) => match parse_suite(tokens, pos + a + b) {
                Err(f) => Err(f),
                Ok((then_block, c)) => if peek(tokens, pos + a + b + c) == TokenView::Else {
                    match parse_suite(tokens, pos + a + b + c + 1) {
                        Err(f) => Err(f),
                        Ok((else_block, d)) => Ok(
                            (
                                StmtView::Expr(
                                    ExprView::If(Box::new(cond), then_block, Some(else_block)),
                                ),
                                a + b + c + 1 + d,
                            ),
                        ),
                    }
                } else {
                    Ok((StmtView::Expr(ExprView::If(Box::new(cond), then_block, None)), a + b + c))
                },
            },
        },
    }
}

/// `while`, the condition and a suite.
pub open spec fn parse_while(tokens: Seq<TokenView>, pos: int) -> Parse<StmtView>
    decreases remaining(tokens, pos), 1nat,
{
    match expect(tokens, pos, TokenView::While) {
        Err(f) => Err(f),
        Ok(a) => match parse_expression(tokens, pos + a) {
            Err(f) => Err(f),
            Ok((cond, b)) => match parse_suite(tokens, pos + a + b) {
                Err(f) => Err(f),
                Ok((body, c)) => Ok(
                    (StmtView::Expr(ExprView::While(Box::new(cond), body)), a + b + c),
                ),
            },
        },
    }
}

/// `for`, the loop variable, `in`, the iterable and a suite.
pub open spec fn parse_for(tokens: Seq<TokenView>, pos: int) -> Parse<StmtView>
    decreases remaining(tokens, pos), 1nat,
{
    match expect(tokens, pos, TokenView::For) {
        Err(f) => Err(f),
        Ok(a) => match expect_ident(tokens, pos + a) {
            Err(f) => Err(f),
            Ok((var, b)) => match expect(tokens, pos + a + b, TokenView::In) {
                Err(f) => Err(f),
                Ok(c) => match parse_expression(tokens, pos + a + b + c) {
                    Err(f) => Err(f),
                    Ok((iterable, d)) => match parse_suite(tokens, pos + a + b + c + d) {
                        Err(f) => Err(f),
                        Ok((body, e)) => Ok(
                            (
                                StmtView::Expr(ExprView::For(var, Box::new(iterable), body)),
                                a + b + c + d + e,
                            ),
                        ),
                    },
                },
            },
        },
    }
}

/// A suite: what opens a block, then the block.
pub open spec fn parse_suite(tokens: Seq<TokenView>, pos: int) -> Parse<Seq<StmtView>>
    decreases remaining(tokens, pos), 0nat,
{
    match block_start(tokens, pos) {
        Err(f) => Err(f),
        Ok(a) => after(a, parse_block(tokens, pos + a, Seq::empty())),
    }
}

/// The statements of a block from `pos` on, after the statements `acc`.
/// The block ends with a `Dedent`, which is taken, or at the end of the
/// tokens. A line break after a statement is taken with it. A statement
/// takes at least one token; the test on it keeps the definition well-founded.
pub open spec fn parse_block(tokens: Seq<TokenView>, pos: int, acc: Seq<StmtView>) -> Parse<
    Seq<StmtView>,
>
    decreases remaining(tokens, pos), 4nat,
{
    if peek(tokens, pos) == TokenView::Dedent {
        Ok((acc, 1nat))
    } else if at_end(tokens, pos) {
        Ok((acc, 0nat))
    } else {
        match parse_declaration(tokens, pos) {
            Err(f) => Err(f),
            Ok((stmt, n)) => {
                let taken = if peek(tokens, pos + n) == TokenView::Newline {
                    n + 1
                } else {
                    n
                };
                if taken == 0 {
                    Ok((acc.push(stmt), 0nat))
                } else {
                    after(taken, parse_block(tokens, pos + taken, acc.push(stmt)))
                }
            },
        }
    }
}


/// An expression of any tier takes at least one token, keeps to the
/// tokens and is plain: no conditional and no loop stands inside it.
pub proof fn lemma_parse_tier(tokens: Seq<TokenView>, pos: int, level: nat)
    requires
        0 <= pos <= tokens.len(),
    ensures
        within(tokens, pos, parse_tier(tokens, pos, level)),
        parse_tier(tokens, pos, level) matches Ok((e, n)) ==> 1 <= n && is_plain(e),
    decreases remaining(tokens, pos),
        (if level >= tiers() {
            2nat
        } else {
            (9 - level) as nat
        }),
{
    if level >= tiers() {
        match peek(tokens, pos) {
            TokenView::Not => lemma_parse_tier(tokens, pos + 1, level),
            TokenView::Minus => lemma_parse_tier(tokens, pos + 1, level),
            _ => lemma_parse_call(tokens, pos),
        }
    } else {
        lemma_parse_tier(tokens, pos, level + 1);
        match parse_tier(tokens, pos, level + 1) {
            Err(_) => {},
            Ok((left, n)) => lemma_fold_tier(tokens, pos + n, level, left),
        }
    }
}

/// The operators folded after an operand keep to the tokens, and what
/// they are folded into a plain operand is plain.
pub proof fn lemma_fold_tier(tokens: Seq<TokenView>, pos: int, level: nat, left: ExprView)
    requires
        0 <= pos <= tokens.len(),
    ensures
        within(tokens, pos, fold_tier(tokens, pos, level, left)),
        fold_tier(tokens, pos, level, left) matches Ok((e, _)) ==> (is_plain(left) ==> is_plain(
            e,
        )),
    decreases remaining(tokens, pos), 0nat,
{
    match operator_at(level, peek(tokens, pos)) {
        None => {},
        Some(op) => {
            lemma_parse_tier(tokens, pos + 1, level + 1);
            match parse_tier(tokens, pos + 1, level + 1) {
                Err(_) => {},
                Ok((right, n)) => lemma_fold_tier(
                    tokens,
                    pos + 1 + n,
                    level,
                    ExprView::BinaryOp(Box::new(left), op, Box::new(right)),
                ),
            }
        },
    }
}

/// A call takes at least one token, keeps to the tokens and is plain.
pub proof fn lemma_parse_call(tokens: Seq<TokenView>, pos: int)
    requires
        0 <= pos <= tokens.len(),
    ensures
        within(tokens, pos, parse_call(tokens, pos)),
        parse_call(tokens, pos) matches Ok((e, n)) ==> 1 <= n && is_plain(e),
    decreases remaining(tokens, pos), 1nat,
{
    lemma_parse_primary(tokens, pos);
    match parse_primary(tokens, pos) {
        Err(_) => {},
        Ok((callee, n)) => lemma_call_suffix(tokens, pos + n, callee),
    }
}

/// The argument lists after a callee keep to the tokens, and applied to
/// a plain callee they give a plain expression.
pub proof fn lemma_call_suffix(tokens: Seq<TokenView>, pos: int, callee: ExprView)
    requires
        0 <= pos <= tokens.len(),
    ensures
        within(tokens, pos, call_suffix(tokens, pos, callee)),
        call_suffix(tokens, pos, callee) matches Ok((e, _)) ==> (is_plain(callee) ==> is_plain(
            e,
        )),
    decreases remaining(tokens, pos), 0nat,
{
    if peek(tokens, pos) == TokenView::LParen {
        lemma_parse_args(tokens, pos + 1, Seq::empty());
        match parse_args(tokens, pos + 1, Seq::empty()) {
            Err(_) => {},
            Ok((args, n)) => match expect(tokens, pos + 1 + n, TokenView::RParen) {
                Err(_) => {},
                Ok(m) => lemma_call_suffix(tokens, pos + 1 + n + m, apply(callee, args)),
            },
        }
    }
}

/// An argument list keeps to the tokens, each of its arguments takes at
/// least one token, and after plain arguments all its arguments are plain.
pub proof fn lemma_parse_args(tokens: Seq<TokenView>, pos: int, acc: Seq<ExprView>)
    requires
        0 <= pos <= tokens.len(),
    ensures
        within(tokens, pos, parse_args(tokens, pos, acc)),
        parse_args(tokens, pos, acc) matches Ok((args, _)) ==> ((forall|i: int|
            0 <= i < acc.len() ==> is_plain(#[trigger] acc[i])) ==> (forall|i: int|
            0 <= i < args.len() ==> is_plain(#[trigger] args[i]))),
        within(tokens, pos, parse_expression(tokens, pos)),
        parse_expression(tokens, pos) matches Ok((e, n)) ==> 1 <= n && is_plain(e),
    decreases remaining(tokens, pos), 11nat,
{
    lemma_parse_tier(tokens, pos, 0);
    if peek(tokens, pos) != TokenView::RParen {
        match parse_expression(tokens, pos) {
            Err(_) => {},
            Ok((arg, n)) => {
                if peek(tokens, pos + n) == TokenView::Comma {
                    lemma_parse_args(tokens, pos + n + 1, acc.push(arg));
                }
                if forall|i: int| 0 <= i < acc.len() ==> is_plain(#[trigger] acc[i]) {
                    assert forall|i: int| 0 <= i < acc.push(arg).len() implies is_plain(
                        #[trigger] acc.push(arg)[i],
                    ) by {
                        if i < acc.len() {
                            assert(acc.push(arg)[i] == acc[i]);
                        }
                    }
                }
            },
        }
    }
}

/// A primary takes at least one token, keeps to the tokens and is plain.
pub proof fn lemma_parse_primary(tokens: Seq<TokenView>, pos: int)
    requires
        0 <= pos <= tokens.len(),
    ensures
        within(tokens, pos, parse_primary(tokens, pos)),
        parse_primary(tokens, pos) matches Ok((e, n)) ==> 1 <= n && is_plain(e),
    decreases remaining(tokens, pos), 0nat,
{
    if peek(tokens, pos) == TokenView::LParen {
        lemma_parse_tier(tokens, pos + 1, 0);
    }
}

/// An expression takes at least one token, keeps to the tokens and is
/// plain: conditionals and loops are statements only.
pub proof fn lemma_parse_expression(tokens: Seq<TokenView>, pos: int)
    requires
        0 <= pos <= tokens.len(),
    ensures
        within(tokens, pos, parse_expression(tokens, pos)),
        parse_expression(tokens, pos) matches Ok((e, n)) ==> 1 <= n && is_plain(e),
{
    lemma_parse_tier(tokens, pos, 0);
}

/// A parameter list keeps to the tokens.
pub proof fn lemma_params_end(
    tokens: Seq<TokenView>,
    pos: int,
    acc: Seq<(Seq<char>, TypeView)>,
)
    requires
        0 <= pos <= tokens.len(),
    ensures
        within(tokens, pos, parse_params(tokens, pos, acc)),
    decreases remaining(tokens, pos),
{
    if peek(tokens, pos) != TokenView::RParen {
        match expect_ident(tokens, pos) {
            Err(_) => {},
            Ok((name, a)) => match expect(tokens, pos + a, TokenView::Colon) {
                Err(_) => {},
                Ok(b) => match parse_type(tokens, pos + a + b) {
                    Err(_) => {},
                    Ok((ty, c)) => if peek(tokens, pos + a + b + c) == TokenView::Comma {
                        lemma_params_end(tokens, pos + a + b + c + 1, acc.push((name, ty)));
                    },
                },
            },
        }
    }
}

/// A binding takes at least one token and keeps to the tokens.
pub proof fn lemma_let_advances(tokens: Seq<TokenView>, pos: int)
    requires
        0 <= pos <= tokens.len(),
    ensures
        within(tokens, pos, parse_let(tokens, pos)),
        parse_let(tokens, pos) matches Ok((_, n)) ==> 1 <= n,
{
    reveal(parse_let);
    if peek(tokens, pos) == TokenView::Let && peek(tokens, pos + 1) is Ident {
        match parse_annotation(tokens, pos + 2) {
            Err(_) => {},
            Ok((_, c)) => if peek(tokens, pos + 2 + c) == TokenView::Eq {
                lemma_parse_expression(tokens, pos + 2 + c + 1);
            },
        }
    }
}

/// A `return` takes at least one token and keeps to the tokens.
pub proof fn lemma_return_advances(tokens: Seq<TokenView>, pos: int)
    requires
        0 <= pos <= tokens.len(),
    ensures
        within(tokens, pos, parse_return(tokens, pos)),
        parse_return(tokens, pos) matches Ok((_, n)) ==> 1 <= n,
{
    reveal(parse_return);
    if peek(tokens, pos) == TokenView::Return {
        lemma_parse_expression(tokens, pos + 1);
    }
}

/// An assignment or a bare expression takes at least one token and ends
/// within the tokens.
pub proof fn lemma_simple_advances(tokens: Seq<TokenView>, pos: int)
    requires
        0 <= pos <= tokens.len(),
    ensures
        within(tokens, pos, parse_simple(tokens, pos)),
        parse_simple(tokens, pos) matches Ok((_, n)) ==> 1 <= n,
{
    reveal(parse_simple);
    if is_assignment(tokens, pos) {
        lemma_parse_expression(tokens, pos + 2);
    } else {
        lemma_parse_expression(tokens, pos);
    }
}

/// A function's signature takes at least one token and keeps to the tokens.
pub proof fn lemma_signature_advances(tokens: Seq<TokenView>, pos: int)
    requires
        0 <= pos <= tokens.len(),
    ensures
        within(tokens, pos, parse_signature(tokens, pos)),
        parse_signature(tokens, pos) matches Ok((_, n)) ==> 1 <= n,
{
    reveal(parse_signature);
    if peek(tokens, pos) == TokenView::Def && peek(tokens, pos + 1) is Ident && peek(
        tokens,
        pos + 2,
    ) == TokenView::LParen {
        lemma_params_end(tokens, pos + 3, Seq::empty());
    }
}

/// A declaration takes at least one token and keeps to the tokens. So
/// the test in `parse_block` on a statement that takes none never holds.
pub proof fn lemma_declaration_advances(tokens: Seq<TokenView>, pos: int)
    requires
        0 <= pos <= tokens.len(),
    ensures
        within(tokens, pos, parse_declaration(tokens, pos)),
        parse_declaration(tokens, pos) matches Ok((_, n)) ==> 1 <= n,
    decreases remaining(tokens, pos), 3nat,
{
    match peek(tokens, pos) {
        TokenView::Def => lemma_function_advances(tokens, pos),
        TokenView::Let => lemma_let_advances(tokens, pos),
        _ => lemma_statement_advances(tokens, pos),
    }
}

/// A function definition takes at least one token and keeps to the tokens.
pub proof fn lemma_function_advances(tokens: Seq<TokenView>, pos: int)
    requires
        0 <= pos <= tokens.len(),
    ensures
        within(tokens, pos, parse_function(tokens, pos)),
        parse_function(tokens, pos) matches Ok((_, n)) ==> 1 <= n,
    decreases remaining(tokens, pos), 2nat,
{
    lemma_signature_advances(tokens, pos);
    match parse_signature(tokens, pos) {
        Err(_) => {},
        Ok((_, a)) => lemma_suite_advances(tokens, pos + a),
    }
}

/// A statement takes at least one token and keeps to the tokens.
pub proof fn lemma_statement_advances(tokens: Seq<TokenView>, pos: int)
    requires
        0 <= pos <= tokens.len(),
    ensures
        within(tokens, pos, parse_statement(tokens, pos)),
        parse_statement(tokens, pos) matches Ok((_, n)) ==> 1 <= n,
    decreases remaining(tokens, pos), 2nat,
{
    match peek(tokens, pos) {
        TokenView::Return => lemma_return_advances(tokens, pos),
        TokenView::Pass => {},
        TokenView::If => lemma_if_advances(tokens, pos),
        TokenView::While => lemma_while_advances(tokens, pos),
        TokenView::For => lemma_for_advances(tokens, pos),
        _ => lemma_simple_advances(tokens, pos),
    }
}

/// A conditional takes at least one token and keeps to the tokens.
pub proof fn lemma_if_advances(tokens: Seq<TokenView>, pos: int)
    requires
        0 <= pos <= tokens.len(),
    ensures
        within(tokens, pos, parse_if(tokens, pos)),
        parse_if(tokens, pos) matches Ok((_, n)) ==> 1 <= n,
    decreases remaining(tokens, pos), 1nat,
{
    if peek(tokens, pos) == TokenView::If {
        lemma_parse_expression(tokens, pos + 1);
        match parse_expression(tokens, pos + 1) {
            Err(_) => {},
            Ok((_, b)) => {
                lemma_suite_advances(tokens, pos + 1 + b);
                match parse_suite(tokens, pos + 1 + b) {
                    Err(_) => {},
                    Ok((_, c)) => if peek(tokens, pos + 1 + b + c) == TokenView::Else {
                        lemma_suite_advances(tokens, pos + 1 + b + c + 1);
                    },
                }
            },
        }
    }
}

/// A `while` loop takes at least one token and keeps to the tokens.
pub proof fn lemma_while_advances(tokens: Seq<TokenView>, pos: int)
    requires
        0 <= pos <= tokens.len(),
    ensures
        within(tokens, pos, parse_while(tokens, pos)),
        parse_while(tokens, pos) matches Ok((_, n)) ==> 1 <= n,
    decreases remaining(tokens, pos), 1nat,
{
    if peek(tokens, pos) == TokenView::While {
        lemma_parse_expression(tokens, pos + 1);
        match parse_expression(tokens, pos + 1) {
            Err(_) => {},
            Ok((_, b)) => lemma_suite_advances(tokens, pos + 1 + b),
        }
    }
}

/// A `for` loop takes at least one token and keeps to the tokens.
pub proof fn lemma_for_advances(tokens: Seq<TokenView>, pos: int)
    requires
        0 <= pos <= tokens.len(),
    ensures
        within(tokens, pos, parse_for(tokens, pos)),
        parse_for(tokens, pos) matches Ok((_, n)) ==> 1 <= n,
    decreases remaining(tokens, pos), 1nat,
{
    if peek(tokens, pos) == TokenView::For && peek(tokens, pos + 1) is Ident && peek(
        tokens,
        pos + 2,
    ) == TokenView::In {
        lemma_parse_expression(tokens, pos + 3);
        match parse_expression(tokens, pos + 3) {
            Err(_) => {},
            Ok((_, d)) => lemma_suite_advances(tokens, pos + 3 + d),
        }
    }
}

/// A suite takes at least one token and keeps to the tokens.
pub proof fn lemma_suite_advances(tokens: Seq<TokenView>, pos: int)
    requires
        0 <= pos <= tokens.len(),
    ensures
        within(tokens, pos, parse_suite(tokens, pos)),
        parse_suite(tokens, pos) matches Ok((_, n)) ==> 1 <= n,
    decreases remaining(tokens, pos), 0nat,
{
    match block_start(tokens, pos) {
        Err(_) => {},
        Ok(a) => lemma_block_ends(tokens, pos + a, Seq::empty()),
    }
}

/// A block keeps to the tokens.
pub proof fn lemma_block_ends(tokens: Seq<TokenView>, pos: int, acc: Seq<StmtView>)
    requires
        0 <= pos <= tokens.len(),
    ensures
        within(tokens, pos, parse_block(tokens, pos, acc)),
    decreases remaining(tokens, pos), 4nat,
{
    if peek(tokens, pos) != TokenView::Dedent && !at_end(tokens, pos) {
        lemma_declaration_advances(tokens, pos);
        match parse_declaration(tokens, pos) {
            Err(_) => {},
            Ok((stmt, n)) => {
                let taken = if peek(tokens, pos + n) == TokenView::Newline {
                    n + 1
                } else {
                    n
                };
                lemma_block_ends(tokens, pos + taken, acc.push(stmt));
            },
        }
    }
}

/// The top-level statements from `pos` to the end of the tokens, after the
/// statements `acc`.
pub open spec fn parse_program(tokens: Seq<TokenView>, pos: int, acc: Seq<StmtView>) -> Parse<
    Seq<StmtView>,
>
    decreases remaining(tokens, pos),
    via parse_program_terminates
{
    if at_end(tokens, pos) {
        Ok((acc, 0nat))
    } else {
        match parse_declaration(tokens, pos) {
            Err(f) => Err(f),
            Ok((stmt, n)) => after(n, parse_program(tokens, pos + n, acc.push(stmt))),
        }
    }
}

#[via_fn]
proof fn parse_program_terminates(tokens: Seq<TokenView>, pos: int, acc: Seq<StmtView>) {
    if !at_end(tokens, pos) {
        lemma_declaration_advances(tokens, pos);
    }
}

/// A program keeps to the tokens, and where it ends nothing is left.
pub proof fn lemma_parse_program(tokens: Seq<TokenView>, pos: int, acc: Seq<StmtView>)
    requires
        0 <= pos <= tokens.len(),
    ensures
        within(tokens, pos, parse_program(tokens, pos, acc)),
        parse_program(tokens, pos, acc) matches Ok((_, n)) ==> at_end(tokens, pos + n),
    decreases remaining(tokens, pos),
{
    if !at_end(tokens, pos) {
        lemma_declaration_advances(tokens, pos);
        match parse_declaration(tokens, pos) {
            Err(_) => {},
            Ok((stmt, n)) => lemma_parse_program(tokens, pos + n, acc.push(stmt)),
        }
    }
}

/// The first `EOF` of the tokens, or their end: where `k` stands if no
/// token before it is `EOF` and nothing is left at it.
pub open spec fn is_end(tokens: Seq<TokenView>, k: int) -> bool {
    0 <= k <= tokens.len() && no_eof(tokens, 0, k) && at_end(tokens, k)
}

/// The tokens end with their only `EOF`, as the lexer gives them.
pub open spec fn ends_with_only_eof(tokens: Seq<TokenView>) -> bool {
    tokens.len() >= 1 && tokens.last() == TokenView::EOF && no_eof(tokens, 0, tokens.len() - 1)
}

/// Parsing a whole token sequence passes every token before the first
/// `EOF` and stops there; a failure is about a token at or before it. Of
/// tokens that end with their only `EOF` that is the last index: on
/// success every token before the last has been taken and the last is left.
pub proof fn lemma_parse_ends_at_eof(tokens: Seq<TokenView>)
    ensures
        parse_program(tokens, 0, Seq::empty()) matches Ok((_, n)) ==> is_end(tokens, n as int),
        parse_program(tokens, 0, Seq::empty()) matches Err(f) ==> 0 <= f.at <= tokens.len()
            && no_eof(tokens, 0, f.at),
        tokens.len() >= 1 && tokens.last() == TokenView::EOF ==> (parse_program(
            tokens,
            0,
            Seq::empty(),
        ) matches Err(f) ==> f.at <= tokens.len() - 1),
        ends_with_only_eof(tokens) ==> (parse_program(tokens, 0, Seq::empty()) matches Ok(
            (_, n),
        ) ==> n == tokens.len() - 1),
{
    lemma_parse_program(tokens, 0, Seq::empty());
    if tokens.len() >= 1 && tokens.last() == TokenView::EOF {
        match parse_program(tokens, 0, Seq::empty()) {
            Ok((_, n)) => {
                if n > tokens.len() - 1 {
                    assert(tokens[tokens.len() - 1] != TokenView::EOF);
                }
                if ends_with_only_eof(tokens) && n < tokens.len() - 1 {
                    assert(tokens[n as int] != TokenView::EOF);
                }
            },
            Err(f) => {
                if f.at > tokens.len() - 1 {
                    assert(tokens[tokens.len() - 1] != TokenView::EOF);
                }
            },
        }
    }
}

/// The program that a token sequence spells, or its first syntax error.
pub open spec fn parse(tokens: Seq<TokenView>) -> Result<Seq<StmtView>, SyntaxFault> {
    match parse_program(tokens, 0, Seq::empty()) {
        Ok((program, _)) => Ok(program),
        Err(f) => Err(f),
    }
}

} // verus!
