//! The syntax tree and its mathematical model.
//!
//! Every tree type has a view: the same shape with `Seq<char>` for text and
//! `Seq` for ordered children. Contracts elsewhere speak of views only.

use vstd::prelude::*;

verus! {

/// A declared type: five primitives and an escape for any other name.
#[derive(Debug, PartialEq, Eq)]
pub enum Type {
    Int,
    Float,
    String,
    Bool,
    Void,
    Custom(String),
}

/// A literal value. A floating-point literal is kept as its decimal text.
#[derive(Debug, PartialEq, Eq)]
pub enum Literal {
    Int(i64),
    Float(String),
    String(String),
    Bool(bool),
}

#[derive(Debug, Clone, Copy, PartialEq, Eq, Structural)]
pub enum BinOp {
    Add,
    Sub,
    Mul,
    Div,
    Mod,
    Eq,
    Ne,
    Lt,
    Gt,
    Le,
    Ge,
    And,
    Or,
}

#[derive(Debug, Clone, Copy, PartialEq, Eq, Structural)]
pub enum UnaryOp {
    Neg,
    Not,
}

#[derive(Debug, PartialEq, Eq)]
pub enum Expr {
    Literal(Literal),
    Variable(String),
    BinaryOp(Box<Expr>, BinOp, Box<Expr>),
    UnaryOp(UnaryOp, Box<Expr>),
    Call(String, Vec<Expr>),
    If(Box<Expr>, Block, Option<Block>),
    While(Box<Expr>, Block),
    For(String, Box<Expr>, Block),
}

#[derive(Debug, PartialEq, Eq)]
pub enum Stmt {
    Expr(Expr),
    Let(String, Option<Type>, Expr),
    Assign(String, Expr),
    Function(FunctionDef),
    Return(Option<Expr>),
    Pass,
}

#[derive(Debug, PartialEq, Eq)]
pub struct FunctionDef {
    pub name: String,
    pub params: Vec<(String, Type)>,
    pub return_type: Type,
    pub body: Block,
}

/// Statements in execution order.
#[derive(Debug, PartialEq, Eq)]
pub struct Block(pub Vec<Stmt>);

pub enum TypeView {
    Int,
    Float,
    String,
    Bool,
    Void,
    Custom(Seq<char>),
}

pub enum LiteralView {
    Int(int),
    Float(Seq<char>),
    String(Seq<char>),
    Bool(bool),
}

pub enum ExprView {
    Literal(LiteralView),
    Variable(Seq<char>),
    BinaryOp(Box<ExprView>, BinOp, Box<ExprView>),
    UnaryOp(UnaryOp, Box<ExprView>),
    Call(Seq<char>, Seq<ExprView>),
    If(Box<ExprView>, Seq<StmtView>, Option<Seq<StmtView>>),
    While(Box<ExprView>, Seq<StmtView>),
    For(Seq<char>, Box<ExprView>, Seq<StmtView>),
}

pub enum StmtView {
    Expr(ExprView),
    Let(Seq<char>, Option<TypeView>, ExprView),
    Assign(Seq<char>, ExprView),
    Function(FunctionDefView),
    Return(Option<ExprView>),
    Pass,
}

pub struct FunctionDefView {
    pub name: Seq<char>,
    pub params: Seq<(Seq<char>, TypeView)>,
    pub return_type: TypeView,
    pub body: Seq<StmtView>,
}

impl View for Type {
    type V = TypeView;

    open spec fn view(&self) -> TypeView {
        match self {
            Type::Int => TypeView::Int,
            Type::Float => TypeView::Float,
            Type::String => TypeView::String,
            Type::Bool => TypeView::Bool,
            Type::Void => TypeView::Void,
            Type::Custom(name) => TypeView::Custom(name@),
        }
    }
}

impl View for Literal {
    type V = LiteralView;

    open spec fn view(&self) -> LiteralView {
        match self {
            Literal::Int(n) => LiteralView::Int(*n as int),
            Literal::Float(text) => LiteralView::Float(text@),
            Literal::String(text) => LiteralView::String(text@),
            Literal::Bool(b) => LiteralView::Bool(*b),
        }
    }
}

/// The model of an expression.
pub open spec fn expr_view(e: Expr) -> ExprView
    decreases e,
{
    match e {
        Expr::Literal(lit) => ExprView::Literal(lit@),
        Expr::Variable(name) => ExprView::Variable(name@),
        Expr::BinaryOp(left, op, right) => ExprView::BinaryOp(
            Box::new(expr_view(*left)),
            op,
            Box::new(expr_view(*right)),
        ),
        Expr::UnaryOp(op, operand) => ExprView::UnaryOp(op, Box::new(expr_view(*operand))),
        Expr::Call(name, args) => ExprView::Call(name@, exprs_view(args)),
        Expr::If(cond, then_block, else_block) => ExprView::If(
            Box::new(expr_view(*cond)),
            block_view(then_block),
            match else_block {
                Some(b) => Some(block_view(b)),
                None => None,
            },
        ),
        Expr::While(cond, body) => ExprView::While(Box::new(expr_view(*cond)), block_view(body)),
        Expr::For(var, iterable, body) => ExprView::For(
            var@,
            Box::new(expr_view(*iterable)),
            block_view(body),
        ),
    }
}

/// The models of a list of expressions, in order.
pub open spec fn exprs_view(v: Vec<Expr>) -> Seq<ExprView>
    decreases v,
{
    Seq::new(
        v.len() as nat,
        |i: int|
            if 0 <= i < v.len() {
                expr_view(v[i])
            } else {
                arbitrary()
            },
    )
}

/// The model of a statement.
pub open spec fn stmt_view(s: Stmt) -> StmtView
    decreases s,
{
    match s {
        Stmt::Expr(e) => StmtView::Expr(expr_view(e)),
        Stmt::Let(name, ty, e) => StmtView::Let(
            name@,
            match ty {
                Some(t) => Some(t@),
                None => None,
            },
            expr_view(e),
        ),
        Stmt::Assign(name, e) => StmtView::Assign(name@, expr_view(e)),
        Stmt::Function(f) => StmtView::Function(function_view(f)),
        Stmt::Return(e) => StmtView::Return(
            match e {
                Some(e) => Some(expr_view(e)),
                None => None,
            },
        ),
        Stmt::Pass => StmtView::Pass,
    }
}

/// The models of a parameter list: each name with its declared type.
pub open spec fn params_view(v: Vec<(String, Type)>) -> Seq<(Seq<char>, TypeView)> {
    Seq::new(v.len() as nat, |i: int| (v[i].0@, v[i].1@))
}

/// The model of a function definition.
pub open spec fn function_view(f: FunctionDef) -> FunctionDefView
    decreases f,
{
    FunctionDefView {
        name: f.name@,
        params: params_view(f.params),
        return_type: f.return_type@,
        body: block_view(f.body),
    }
}

/// The model of a block: the models of its statements, in order.
pub open spec fn block_view(b: Block) -> Seq<StmtView>
    decreases b,
{
    stmts_view(b.0)
}

/// The models of a list of statements, in order.
pub open spec fn stmts_view(v: Vec<Stmt>) -> Seq<StmtView>
    decreases v,
{
    Seq::new(
        v.len() as nat,
        |i: int|
            if 0 <= i < v.len() {
                stmt_view(v[i])
            } else {
                arbitrary()
            },
    )
}

impl View for Expr {
    type V = ExprView;

    open spec fn view(&self) -> ExprView {
        expr_view(*self)
    }
}

impl View for Stmt {
    type V = StmtView;

    open spec fn view(&self) -> StmtView {
        stmt_view(*self)
    }
}

impl View for FunctionDef {
    type V = FunctionDefView;

    open spec fn view(&self) -> FunctionDefView {
        function_view(*self)
    }
}

impl View for Block {
    type V = Seq<StmtView>;

    open spec fn view(&self) -> Seq<StmtView> {
        block_view(*self)
    }
}

/// An expression without conditionals and loops: literals, variables,
/// operators and calls all the way down.
pub open spec fn is_plain(e: ExprView) -> bool
    decreases e,
{
    match e {
        ExprView::Literal(_) => true,
        ExprView::Variable(_) => true,
        ExprView::BinaryOp(left, _, right) => is_plain(*left) && is_plain(*right),
        ExprView::UnaryOp(_, operand) => is_plain(*operand),
        ExprView::Call(_, args) => forall|i: int|
            0 <= i < args.len() ==> is_plain(#[trigger] args[i]),
        _ => false,
    }
}

/// The model of a list with one more expression is the list's model with
/// one more model.
pub proof fn lemma_exprs_view_push(before: Vec<Expr>, grown: Vec<Expr>, e: Expr)
    requires
        grown@ == before@.push(e),
    ensures
        exprs_view(grown) == exprs_view(before).push(e@),
{
    assert(exprs_view(grown) =~= exprs_view(before).push(e@));
}

/// The model of a list with one more statement is the list's model with
/// one more model.
pub proof fn lemma_stmts_view_push(before: Vec<Stmt>, grown: Vec<Stmt>, s: Stmt)
    requires
        grown@ == before@.push(s),
    ensures
        stmts_view(grown) == stmts_view(before).push(s@),
{
    assert(stmts_view(grown) =~= stmts_view(before).push(s@));
}

/// The model of a list with one more parameter is the list's model with
/// one more model.
pub proof fn lemma_params_view_push(
    before: Vec<(String, Type)>,
    grown: Vec<(String, Type)>,
    param: (String, Type),
)
    requires
        grown@ == before@.push(param),
    ensures
        params_view(grown) == params_view(before).push((param.0@, param.1@)),
{
    assert(params_view(grown) =~= params_view(before).push((param.0@, param.1@)));
}

impl Clone for Type {
    fn clone(&self) -> (copy: Type)
        ensures
            copy@ == self@,
    {
        match self {
            Type::Int => Type::Int,
            Type::Float => Type::Float,
            Type::String => Type::String,
            Type::Bool => Type::Bool,
            Type::Void => Type::Void,
            Type::Custom(name) => Type::Custom(name.clone()),
        }
    }
}

impl Clone for Literal {
    fn clone(&self) -> (copy: Literal)
        ensures
            copy@ == self@,
    {
        match self {
            Literal::Int(n) => Literal::Int(*n),
            Literal::Float(text) => Literal::Float(text.clone()),
            Literal::String(text) => Literal::String(text.clone()),
            Literal::Bool(b) => Literal::Bool(*b),
        }
    }
}

/// A copy of an expression.
pub fn clone_expr(e: &Expr) -> (copy: Expr)
    ensures
        copy@ == e@,
    decreases e,
{
    match e {
        Expr::Literal(lit) => Expr::Literal(lit.clone()),
        Expr::Variable(name) => Expr::Variable(name.clone()),
        Expr::BinaryOp(left, op, right) => Expr::BinaryOp(
            Box::new(clone_expr(left)),
            *op,
            Box::new(clone_expr(right)),
        ),
        Expr::UnaryOp(op, operand) => Expr::UnaryOp(*op, Box::new(clone_expr(operand))),
        Expr::Call(name, args) => Expr::Call(name.clone(), clone_exprs(args)),
        Expr::If(cond, then_block, else_block) => Expr::If(
            Box::new(clone_expr(cond)),
            clone_block(then_block),
            match else_block {
                Some(b) => Some(clone_block(b)),
                None => None,
            },
        ),
        Expr::While(cond, body) => Expr::While(Box::new(clone_expr(cond)), clone_block(body)),
        Expr::For(var, iterable, body) => Expr::For(
            var.clone(),
            Box::new(clone_expr(iterable)),
            clone_block(body),
        ),
    }
}

/// A copy of a list of expressions.
pub fn clone_exprs(v: &Vec<Expr>) -> (copy: Vec<Expr>)
    ensures
        exprs_view(copy) == exprs_view(*v),
    decreases v,
{
    let mut copy: Vec<Expr> = Vec::new();
    let mut i: usize = 0;
    while i < v.len()
        invariant
            i <= v.len(),
            copy.len() == i,
            forall|j: int| 0 <= j < i ==> copy[j]@ == v[j]@,
        decreases v.len() - i,
    {
        copy.push(clone_expr(&v[i]));
        i += 1;
    }
    assert(exprs_view(copy) =~= exprs_view(*v));
    copy
}

/// A copy of a statement.
pub fn clone_stmt(s: &Stmt) -> (copy: Stmt)
    ensures
        copy@ == s@,
    decreases s,
{
    match s {
        Stmt::Expr(e) => Stmt::Expr(clone_expr(e)),
        Stmt::Let(name, ty, e) => Stmt::Let(
            name.clone(),
            match ty {
                Some(t) => Some(t.clone()),
                None => None,
            },
            clone_expr(e),
        ),
        Stmt::Assign(name, e) => Stmt::Assign(name.clone(), clone_expr(e)),
        Stmt::Function(f) => Stmt::Function(clone_function(f)),
        Stmt::Return(e) => Stmt::Return(
            match e {
                Some(e) => Some(clone_expr(e)),
                None => None,
            },
        ),
        Stmt::Pass => Stmt::Pass,
    }
}

/// A copy of a list of statements.
pub fn clone_stmts(v: &Vec<Stmt>) -> (copy: Vec<Stmt>)
    ensures
        stmts_view(copy) == stmts_view(*v),
    decreases v,
{
    let mut copy: Vec<Stmt> = Vec::new();
    let mut i: usize = 0;
    while i < v.len()
        invariant
            i <= v.len(),
            copy.len() == i,
            forall|j: int| 0 <= j < i ==> copy[j]@ == v[j]@,
        decreases v.len() - i,
    {
        copy.push(clone_stmt(&v[i]));
        i += 1;
    }
    assert(stmts_view(copy) =~= stmts_view(*v));
    copy
}

/// A copy of a block.
pub fn clone_block(b: &Block) -> (copy: Block)
    ensures
        copy@ == b@,
    decreases b,
{
    Block(clone_stmts(&b.0))
}

/// A copy of a function definition.
pub fn clone_function(f: &FunctionDef) -> (copy: FunctionDef)
    ensures
        copy@ == f@,
    decreases f,
{
    let mut params: Vec<(String, Type)> = Vec::new();
    let mut i: usize = 0;
    while i < f.params.len()
        invariant
            i <= f.params.len(),
            params.len() == i,
            forall|j: int|
                0 <= j < i ==> params[j].0@ == f.params[j].0@ && params[j].1@ == f.params[j].1@,
        decreases f.params.len() - i,
    {
        params.push((f.params[i].0.clone(), f.params[i].1.clone()));
        i += 1;
    }
    assert(params_view(params) =~= params_view(f.params));
    FunctionDef {
        name: f.name.clone(),
        params,
        return_type: f.return_type.clone(),
        body: clone_block(&f.body),
    }
}

impl Clone for Expr {
    fn clone(&self) -> (copy: Expr)
        ensures
            copy@ == self@,
    {
        clone_expr(self)
    }
}

impl Clone for Stmt {
    fn clone(&self) -> (copy: Stmt)
        ensures
            copy@ == self@,
    {
        clone_stmt(self)
    }
}

impl Clone for Block {
    fn clone(&self) -> (copy: Block)
        ensures
            copy@ == self@,
    {
        clone_block(self)
    }
}

impl Clone for FunctionDef {
    fn clone(&self) -> (copy: FunctionDef)
        ensures
            copy@ == self@,
    {
        clone_function(self)
    }
}

} // verus!
