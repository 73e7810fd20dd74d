//! The emitter: renders a syntax tree as C++ source text.
//!
//! The text is specified by `emit_program` and the functions under it, all
//! over the tree's model. `CodeGen` writes that text line by line.

use crate::ast::{
    exprs_view, is_plain, stmts_view, BinOp, Block, Expr, ExprView, FunctionDef, FunctionDefView,
    Literal, LiteralView, Stmt, StmtView, Type, TypeView, UnaryOp,
};
use crate::text::{int_text, push_int, str_eq};
use vstd::prelude::*;
use vstd::string::*;

verus! {

broadcast use vstd::std_specs::vec::axiom_vec_index_decreases;

/// Leading whitespace of a line at nesting depth `level`: four spaces per level.
pub open spec fn indentation(level: nat) -> Seq<char>
    decreases level,
{
    if level == 0 {
        Seq::empty()
    } else {
        indentation((level - 1) as nat) + "    "@
    }
}

/// The indentation of depth `level` is four characters a level long.
pub proof fn lemma_indentation_len(level: nat)
    ensures
        indentation(level).len() == 4 * level,
    decreases level,
{
    reveal_strlit("    ");
    if level > 0 {
        lemma_indentation_len((level - 1) as nat);
    }
}

/// One output line: indentation, the text, a line feed.
pub open spec fn line(level: nat, text: Seq<char>) -> Seq<char> {
    indentation(level) + text + "\n"@
}

/// The C++ spelling of a binary operator.
pub open spec fn binop_text(op: BinOp) -> Seq<char> {
    match op {
        BinOp::Add => "+"@,
        BinOp::Sub => "-"@,
        BinOp::Mul => "*"@,
        BinOp::Div => "/"@,
        BinOp::Mod => "%"@,
        BinOp::Eq => "=="@,
        BinOp::Ne => "!="@,
        BinOp::Lt => "<"@,
        BinOp::Gt => ">"@,
        BinOp::Le => "<="@,
        BinOp::Ge => ">="@,
        BinOp::And => "&&"@,
        BinOp::Or => "||"@,
    }
}

/// The C++ spelling of a unary operator.
pub open spec fn unaryop_text(op: UnaryOp) -> Seq<char> {
    match op {
        UnaryOp::Neg => "-"@,
        UnaryOp::Not => "!"@,
    }
}

/// The C++ type that a declared type maps to; any custom name becomes `auto`.
pub open spec fn type_text(ty: TypeView) -> Seq<char> {
    match ty {
        TypeView::Int => "int"@,
        TypeView::Float => "double"@,
        TypeView::String => "std::string"@,
        TypeView::Bool => "bool"@,
        TypeView::Void => "void"@,
        TypeView::Custom(_) => "auto"@,
    }
}

/// How one character is written inside a C++ string literal: the double
/// quote and the backslash after a backslash, the line feed, the tab and
/// the carriage return as `\n`, `\t` and `\r`, anything else as it is.
pub open spec fn escaped_char(c: char) -> Seq<char> {
    if c == '"' {
        "\\\""@
    } else if c == '\\' {
        "\\\\"@
    } else if c == '\n' {
        "\\n"@
    } else if c == '\t' {
        "\\t"@
    } else if c == '\r' {
        "\\r"@
    } else {
        seq![c]
    }
}

/// How a text is written inside a C++ string literal: each character
/// escaped, in order.
pub open spec fn escaped(text: Seq<char>) -> Seq<char>
    decreases text.len(),
{
    if text.len() == 0 {
        Seq::empty()
    } else {
        escaped(text.drop_last()) + escaped_char(text.last())
    }
}

/// Escaping goes character by character from the front as well.
pub proof fn lemma_escaped_front(c: char, text: Seq<char>)
    ensures
        escaped(seq![c] + text) == escaped_char(c) + escaped(text),
    decreases text.len(),
{
    let whole = seq![c] + text;
    if text.len() == 0 {
        assert(whole.drop_last() =~= text);
        assert(whole.last() == c);
        assert(escaped(text) =~= Seq::<char>::empty());
        assert(escaped(whole) =~= escaped_char(c) + escaped(text));
    } else {
        lemma_escaped_front(c, text.drop_last());
        assert(whole.drop_last() =~= seq![c] + text.drop_last());
        assert(whole.last() == text.last());
        lemma_join(escaped_char(c), escaped(text.drop_last()), escaped_char(text.last()));
    }
}

/// An escaped text holds no line feed, so a literal stays on its line.
pub proof fn lemma_escaped_holds_no_line_feed(text: Seq<char>)
    ensures
        forall|i: int| 0 <= i < escaped(text).len() ==> escaped(text)[i] != '\n',
    decreases text.len(),
{
    reveal_strlit("\\\"");
    reveal_strlit("\\\\");
    reveal_strlit("\\n");
    reveal_strlit("\\t");
    reveal_strlit("\\r");
    if text.len() > 0 {
        lemma_escaped_holds_no_line_feed(text.drop_last());
        let init = escaped(text.drop_last());
        let last = escaped_char(text.last());
        assert forall|i: int| 0 <= i < escaped(text).len() implies escaped(text)[i] != '\n' by {
            if i < init.len() {
                assert(escaped(text)[i] == init[i]);
            } else {
                assert(escaped(text)[i] == last[i - init.len()]);
            }
        }
    }
}

/// The C++ spelling of a literal. String contents are written escaped
/// between double quotes.
pub open spec fn literal_text(lit: LiteralView) -> Seq<char> {
    match lit {
        LiteralView::Int(n) => int_text(n),
        LiteralView::Float(text) => text,
        LiteralView::String(text) => "\""@ + escaped(text) + "\""@,
        LiteralView::Bool(b) => if b {
            "true"@
        } else {
            "false"@
        },
    }
}

/// What rendering an expression yields: the lines written ahead of it and
/// the text that stands in its place.
pub struct Emitted {
    pub hoisted: Seq<char>,
    pub text: Seq<char>,
}

/// Rendering of an expression at nesting depth `level`.
///
/// Operators are fully parenthesised. A conditional or a loop is written out
/// as a braced statement ahead of the expression and leaves an empty text in
/// its place.
pub open spec fn emit_expr(e: ExprView, level: nat) -> Emitted
    decreases e, 0nat,
{
    match e {
        ExprView::Literal(lit) => Emitted { hoisted: Seq::empty(), text: literal_text(lit) },
        ExprView::Variable(name) => Emitted { hoisted: Seq::empty(), text: name },
        ExprView::BinaryOp(left, op, right) => {
            let l = emit_expr(*left, level);
            let r = emit_expr(*right, level);
            Emitted {
                hoisted: l.hoisted + r.hoisted,
                text: "("@ + l.text + " "@ + binop_text(op) + " "@ + r.text + ")"@,
            }
        },
        ExprView::UnaryOp(op, operand) => {
            let x = emit_expr(*operand, level);
            Emitted { hoisted: x.hoisted, text: "("@ + unaryop_text(op) + x.text + ")"@ }
        },
        ExprView::Call(name, args) => {
            let a = emit_args(args, level);
            Emitted { hoisted: a.hoisted, text: name + "("@ + a.text + ")"@ }
        },
        ExprView::If(cond, then_block, else_block) => {
            let c = emit_expr(*cond, level);
            let then_part = c.hoisted + braced("if ("@ + c.text + ") {"@, then_block, level);
            let both = match else_block {
                Some(b) => then_part + braced("} else {"@, b, level),
                None => then_part,
            };
            Emitted { hoisted: both + line(level, "}"@), text: Seq::empty() }
        },
        ExprView::While(cond, body) => {
            let c = emit_expr(*cond, level);
            Emitted {
                hoisted: c.hoisted + braced("while ("@ + c.text + ") {"@, body, level) + line(
                    level,
                    "}"@,
                ),
                text: Seq::empty(),
            }
        },
        ExprView::For(var, iterable, body) => {
            let it = emit_expr(*iterable, level);
            Emitted {
                hoisted: it.hoisted + braced(
                    "for (auto "@ + var + " : "@ + it.text + ") {"@,
                    body,
                    level,
                ) + line(level, "}"@),
                text: Seq::empty(),
            }
        },
    }
}

/// The opening of a braced body: the line `head` and, one level deeper,
/// the statements of `body`.
pub open spec fn braced(head: Seq<char>, body: Seq<StmtView>, level: nat) -> Seq<char>
    decreases body, 1nat,
{
    line(level, head) + emit_block(body, level + 1)
}

/// Rendering of an argument list: the arguments' texts joined by `", "`,
/// and whatever they wrote ahead, in order.
pub open spec fn emit_args(args: Seq<ExprView>, level: nat) -> Emitted
    decreases args, 0nat,
{
    if args.len() == 0 {
        Emitted { hoisted: Seq::empty(), text: Seq::empty() }
    } else {
        let init = emit_args(args.drop_last(), level);
        let last = emit_expr(args.last(), level);
        Emitted {
            hoisted: init.hoisted + last.hoisted,
            text: if args.len() == 1 {
                last.text
            } else {
                init.text + ", "@ + last.text
            },
        }
    }
}

/// Rendering of a statement at nesting depth `level`.
pub open spec fn emit_stmt(s: StmtView, level: nat) -> Seq<char>
    decreases s, 0nat,
{
    match s {
        StmtView::Expr(e) => {
            let x = emit_expr(e, level);
            x.hoisted + line(level, x.text + ";"@)
        },
        StmtView::Let(name, _, e) => {
            let x = emit_expr(e, level);
            x.hoisted + line(level, "auto "@ + name + " = "@ + x.text + ";"@)
        },
        StmtView::Assign(name, e) => {
            let x = emit_expr(e, level);
            x.hoisted + line(level, name + " = "@ + x.text + ";"@)
        },
        StmtView::Function(f) => emit_function(f, level),
        StmtView::Return(Some(e)) => {
            let x = emit_expr(e, level);
            x.hoisted + line(level, "return "@ + x.text + ";"@)
        },
        StmtView::Return(None) => line(level, "return;"@),
        StmtView::Pass => line(level, "// pass"@),
    }
}

/// Rendering of a block: its statements' renderings, in order.
pub open spec fn emit_block(b: Seq<StmtView>, level: nat) -> Seq<char>
    decreases b, 0nat,
{
    if b.len() == 0 {
        Seq::empty()
    } else {
        emit_block(b.drop_last(), level) + emit_stmt(b.last(), level)
    }
}

/// Rendering of a parameter list: `type name` pairs joined by `", "`.
pub open spec fn emit_params(params: Seq<(Seq<char>, TypeView)>) -> Seq<char>
    decreases params.len(),
{
    if params.len() == 0 {
        Seq::empty()
    } else {
        let last = type_text(params.last().1) + " "@ + params.last().0;
        if params.len() == 1 {
            last
        } else {
            emit_params(params.drop_last()) + ", "@ + last
        }
    }
}

/// Rendering of a function definition: header, body one level deeper,
/// closing brace and an empty line.
pub open spec fn emit_function(f: FunctionDefView, level: nat) -> Seq<char>
    decreases f, 0nat,
{
    braced(
        type_text(f.return_type) + " "@ + f.name + "("@ + emit_params(f.params) + ") {"@,
        f.body,
        level,
    ) + line(level, "}"@) + line(level, Seq::empty())
}

/// A plain expression is rendered in place: nothing is written ahead of it,
/// at whatever depth.
pub proof fn lemma_plain_writes_nothing(e: ExprView, level: nat)
    requires
        is_plain(e),
    ensures
        emit_expr(e, level).hoisted == Seq::<char>::empty(),
    decreases e,
{
    match e {
        ExprView::BinaryOp(left, _, right) => {
            lemma_plain_writes_nothing(*left, level);
            lemma_plain_writes_nothing(*right, level);
            assert(Seq::<char>::empty() + Seq::<char>::empty() =~= Seq::<char>::empty());
        },
        ExprView::UnaryOp(_, operand) => {
            lemma_plain_writes_nothing(*operand, level);
        },
        ExprView::Call(_, args) => {
            lemma_plain_args_write_nothing(args, level);
        },
        _ => {},
    }
}

/// Plain arguments are rendered in place.
pub proof fn lemma_plain_args_write_nothing(args: Seq<ExprView>, level: nat)
    requires
        forall|i: int| 0 <= i < args.len() ==> is_plain(#[trigger] args[i]),
    ensures
        emit_args(args, level).hoisted == Seq::<char>::empty(),
    decreases args,
{
    if args.len() > 0 {
        lemma_plain_args_write_nothing(args.drop_last(), level);
        lemma_plain_writes_nothing(args.last(), level);
        assert(Seq::<char>::empty() + Seq::<char>::empty() =~= Seq::<char>::empty());
    }
}

/// Joining is associative.
pub proof fn lemma_join(a: Seq<char>, b: Seq<char>, c: Seq<char>)
    ensures
        (a + b) + c == a + (b + c),
{
    assert((a + b) + c =~= a + (b + c));
}

/// Whether a top-level function named `main` is defined.
pub open spec fn defines_main(program: Seq<StmtView>) -> bool {
    exists|i: int|
        0 <= i < program.len() && (#[trigger] program[i] matches StmtView::Function(f) && f.name
            == "main"@)
}

/// The lines that open every emitted file: the includes and a generic `print`.
pub open spec fn preamble() -> Seq<char> {
    "#include <iostream>\n"@ + "#include <string>\n\n"@ + "// Вспомогательная функция print\n"@
        + "template<typename T>\n"@ + "void print(T value) {\n"@
        + "    std::cout << value << std::endl;\n"@ + "}\n\n"@
}

/// The entry point supplied when the program defines none: it returns 0.
pub open spec fn entry_stub() -> Seq<char> {
    "int main() {\n"@ + "    return 0;\n"@ + "}\n"@
}

/// The emitted file with its statements at depth `level`: the preamble,
/// every top-level statement in order, and the entry stub unless the
/// program defines `main` itself.
pub open spec fn emit_file(program: Seq<StmtView>, level: nat) -> Seq<char> {
    if defines_main(program) {
        preamble() + emit_block(program, level)
    } else {
        preamble() + emit_block(program, level) + entry_stub()
    }
}

/// The emitted file: the preamble, every top-level statement in order, and
/// the entry stub unless the program defines `main` itself.
pub open spec fn emit_program(program: Seq<StmtView>) -> Seq<char> {
    emit_file(program, 0)
}

/// A program that defines no `main` gets one entry point, after everything
/// else; a program that defines `main` gets none.
pub proof fn lemma_entry_point(program: Seq<StmtView>)
    ensures
        !defines_main(program) ==> emit_program(program) == preamble() + emit_block(program, 0)
            + entry_stub(),
        defines_main(program) ==> emit_program(program) == preamble() + emit_block(program, 0),
{
}

/// Appends `text` to `out` as it is written inside a C++ string literal.
pub fn push_escaped(out: &mut String, text: &str)
    ensures
        final(out)@ == old(out)@ + escaped(text@),
{
    let ghost before = out@;
    assert(out@ =~= before + escaped(text@.take(0)));
    for c in it: text.chars()
        invariant
            it.seq() == text@,
            out@ == before + escaped(it.seq().take(it.index())),
    {
        let ghost written = out@;
        if c == '"' {
            out.append("\\\"");
        } else if c == '\\' {
            out.append("\\\\");
        } else if c == '\n' {
            out.append("\\n");
        } else if c == '\t' {
            out.append("\\t");
        } else if c == '\r' {
            out.append("\\r");
        } else {
            out.push(c);
            assert(out@ =~= written + seq![c]);
        }
        proof {
            let longer = text@.take(it.index() + 1);
            assert(longer.drop_last() =~= text@.take(it.index()));
            assert(longer.last() == c);
            lemma_join(before, escaped(text@.take(it.index())), escaped_char(c));
        }
    }
    assert(text@.take(text@.len() as int) =~= text@);
}

/// The emitter's state: the text written so far and the current indentation.
pub struct CodeGen {
    output: String,
    indent: String,
    level: Ghost<nat>,
}

impl CodeGen {
    /// The text written so far.
    pub closed spec fn output(&self) -> Seq<char> {
        self.output@
    }

    /// The current nesting depth.
    pub closed spec fn level(&self) -> nat {
        self.level@
    }

    /// The indentation held is that of the current depth.
    pub closed spec fn wf(&self) -> bool {
        self.indent@ == indentation(self.level@)
    }

    /// An emitter that has written nothing, at depth zero.
    pub fn new() -> (g: CodeGen)
        ensures
            g.wf(),
            g.level() == 0,
            g.output() == Seq::<char>::empty(),
    {
        CodeGen { output: String::new(), indent: String::new(), level: Ghost(0) }
    }

    /// An emitter that has written nothing, at depth `depth`.
    pub fn at_depth(depth: usize) -> (g: CodeGen)
        ensures
            g.wf(),
            g.level() == depth,
            g.output() == Seq::<char>::empty(),
    {
        let mut indent = String::new();
        let mut i: usize = 0;
        while i < depth
            invariant
                i <= depth,
                indent@ == indentation(i as nat),
            decreases depth - i,
        {
            indent.append("    ");
            i += 1;
        }
        CodeGen { output: String::new(), indent, level: Ghost(depth as nat) }
    }

    /// Renders a whole program.
    pub fn generate(ast: Vec<Stmt>) -> (code: String)
        ensures
            code@ == emit_program(stmts_view(ast)),
    {
        let mut g = CodeGen::new();
        g.gen_program(ast);
        g.finish()
    }

    /// Hands over the text written so far.
    pub fn finish(self) -> (code: String)
        ensures
            code@ == self.output(),
    {
        self.output
    }

    /// Writes the preamble, the statements and, where no `main` is defined, the entry stub.
    pub fn gen_program(&mut self, stmts: Vec<Stmt>)
        requires
            old(self).wf(),
        ensures
            final(self).wf(),
            final(self).level() == old(self).level(),
            final(self).output() == old(self).output() + emit_file(
                stmts_view(stmts),
                old(self).level(),
            ),
    {
        let ghost before = self.output@;
        let ghost level = self.level@;
        self.output.append("#include <iostream>\n");
        self.output.append("#include <string>\n\n");
        self.output.append("// Вспомогательная функция print\n");
        self.output.append("template<typename T>\n");
        self.output.append("void print(T value) {\n");
        self.output.append("    std::cout << value << std::endl;\n");
        self.output.append("}\n\n");
        assert(self.output@ =~= before + preamble());

        let mut has_main = false;
        let mut i: usize = 0;
        while i < stmts.len()
            invariant
                i <= stmts.len(),
                has_main <==> exists|j: int|
                    0 <= j < i && (#[trigger] stmts[j] matches Stmt::Function(f) && f.name@
                        == "main"@),
            decreases stmts.len() - i,
        {
            if let Stmt::Function(func) = &stmts[i] {
                if str_eq(func.name.as_str(), "main") {
                    has_main = true;
                }
            }
            i += 1;
        }
        let program = Block(stmts);
        proof {
            if has_main {
                let j = choose|j: int|
                    0 <= j < program.0.len() && (#[trigger] program.0[j] matches Stmt::Function(f)
                        && f.name@ == "main"@);
                assert(program@[j] matches StmtView::Function(f) && f.name == "main"@);
            }
            if defines_main(program@) {
                let j = choose|j: int|
                    0 <= j < program@.len() && (#[trigger] program@[j] matches StmtView::Function(f)
                        && f.name == "main"@);
                assert(program.0[j] matches Stmt::Function(f) && f.name@ == "main"@);
            }
        }
        self.gen_block(&program);
        proof {
            lemma_join(before, preamble(), emit_block(program@, level));
        }
        if !has_main {
            let ghost body = self.output@;
            self.output.append("int main() {\n");
            self.output.append("    return 0;\n");
            self.output.append("}\n");
            assert(self.output@ =~= body + entry_stub());
            proof {
                lemma_join(before, preamble() + emit_block(program@, level), entry_stub());
            }
        }
    }

    /// Writes one statement.
    pub fn gen_stmt(&mut self, stmt: &Stmt)
        requires
            old(self).wf(),
        ensures
            final(self).wf(),
            final(self).level() == old(self).level(),
            final(self).output() == old(self).output() + emit_stmt(stmt@, old(self).level()),
        decreases stmt, 0nat,
    {
        let ghost before = self.output@;
        match stmt {
            Stmt::Expr(expr) => {
                let mut text = self.gen_expr(expr);
                text.append(";");
                self.push_line(text.as_str());
            },
            Stmt::Let(name, _type, expr) => {
                let expr_code = self.gen_expr(expr);
                let mut text = String::from_str("auto ");
                text.append(name.as_str());
                text.append(" = ");
                text.append(expr_code.as_str());
                text.append(";");
                self.push_line(text.as_str());
            },
            Stmt::Assign(name, expr) => {
                let expr_code = self.gen_expr(expr);
                let mut text = name.clone();
                text.append(" = ");
                text.append(expr_code.as_str());
                text.append(";");
                self.push_line(text.as_str());
            },
            Stmt::Function(func) => {
                self.gen_function(func);
            },
            Stmt::Return(expr) => {
                if let Some(expr) = expr {
                    let expr_code = self.gen_expr(expr);
                    let mut text = String::from_str("return ");
                    text.append(expr_code.as_str());
                    text.append(";");
                    self.push_line(text.as_str());
                } else {
                    self.push_line("return;");
                }
            },
            Stmt::Pass => {
                self.push_line("// pass");
            },
        }
        assert(self.output@ =~= before + emit_stmt(stmt@, old(self).level()));
    }

    /// Renders one expression: returns its text, after writing what it hoists.
    pub fn gen_expr(&mut self, expr: &Expr) -> (text: String)
        requires
            old(self).wf(),
        ensures
            final(self).wf(),
            final(self).level() == old(self).level(),
            final(self).output() == old(self).output() + emit_expr(
                expr@,
                old(self).level(),
            ).hoisted,
            text@ == emit_expr(expr@, old(self).level()).text,
        decreases expr, 0nat,
    {
        let ghost before = self.output@;
        let ghost level = self.level@;
        match expr {
            Expr::Literal(lit) => {
                let text = self.gen_literal(lit);
                assert(self.output@ =~= before + emit_expr(expr@, level).hoisted);
                text
            },
            Expr::Variable(name) => {
                assert(self.output@ =~= before + emit_expr(expr@, level).hoisted);
                name.clone()
            },
            Expr::BinaryOp(left, op, right) => {
                let left_code = self.gen_expr(left);
                let right_code = self.gen_expr(right);
                let op_str = self.gen_binop(op);
                let mut text = String::from_str("(");
                text.append(left_code.as_str());
                text.append(" ");
                text.append(op_str);
                text.append(" ");
                text.append(right_code.as_str());
                text.append(")");
                assert(self.output@ =~= before + emit_expr(expr@, level).hoisted);
                text
            },
            Expr::UnaryOp(op, operand) => {
                let expr_code = self.gen_expr(operand);
                let op_str = self.gen_unaryop(op);
                let mut text = String::from_str("(");
                text.append(op_str);
                text.append(expr_code.as_str());
                text.append(")");
                assert(self.output@ =~= before + emit_expr(expr@, level).hoisted);
                assert(text@ =~= emit_expr(expr@, level).text);
                text
            },
            Expr::Call(name, args) => {
                let joined = self.gen_args(args);
                let mut text = name.clone();
                text.append("(");
                text.append(joined.as_str());
                text.append(")");
                assert(self.output@ =~= before + emit_expr(expr@, level).hoisted);
                assert(text@ =~= emit_expr(expr@, level).text);
                text
            },
            Expr::If(condition, then_block, else_block) => {
                let cond_code = self.gen_expr(condition);
                let ghost c = emit_expr(condition@, level);
                let mut head = String::from_str("if (");
                head.append(cond_code.as_str());
                head.append(") {");
                self.gen_braced(head.as_str(), then_block);
                let ghost then_part = braced(head@, then_block@, level);
                proof {
                    lemma_join(before, c.hoisted, then_part);
                }
                if let Some(else_block) = else_block {
                    self.gen_braced("} else {", else_block);
                    proof {
                        lemma_join(
                            before,
                            c.hoisted + then_part,
                            braced("} else {"@, else_block@, level),
                        );
                    }
                }
                self.push_line("}");
                proof {
                    let written = match else_block {
                        Some(b) => c.hoisted + then_part + braced("} else {"@, b@, level),
                        None => c.hoisted + then_part,
                    };
                    lemma_join(before, written, line(level, "}"@));
                }
                String::new()
            },
            Expr::While(condition, body) => {
                let cond_code = self.gen_expr(condition);
                let ghost c = emit_expr(condition@, level);
                let mut head = String::from_str("while (");
                head.append(cond_code.as_str());
                head.append(") {");
                self.gen_braced(head.as_str(), body);
                self.push_line("}");
                proof {
                    lemma_join(before, c.hoisted, braced(head@, body@, level));
                    lemma_join(
                        before,
                        c.hoisted + braced(head@, body@, level),
                        line(level, "}"@),
                    );
                }
                String::new()
            },
            Expr::For(var, iterable, body) => {
                let iter_code = self.gen_expr(iterable);
                let ghost it = emit_expr(iterable@, level);
                let mut head = String::from_str("for (auto ");
                head.append(var.as_str());
                head.append(" : ");
                head.append(iter_code.as_str());
                head.append(") {");
                self.gen_braced(head.as_str(), body);
                self.push_line("}");
                proof {
                    lemma_join(before, it.hoisted, braced(head@, body@, level));
                    lemma_join(
                        before,
                        it.hoisted + braced(head@, body@, level),
                        line(level, "}"@),
                    );
                }
                String::new()
            },
        }
    }

    /// Writes the line `head` and, one level deeper, the statements of `body`.
    pub fn gen_braced(&mut self, head: &str, body: &Block)
        requires
            old(self).wf(),
        ensures
            final(self).wf(),
            final(self).level() == old(self).level(),
            final(self).output() == old(self).output() + braced(head@, body@, old(self).level()),
        decreases body, 1nat,
    {
        let ghost before = self.output@;
        let ghost level = self.level@;
        self.push_line(head);
        self.enter();
        self.gen_block(body);
        self.leave();
        proof {
            lemma_join(before, line(level, head@), emit_block(body@, level + 1));
        }
    }

    /// Renders the arguments of a call: returns their texts joined by `", "`,
    /// after writing what they hoist.
    pub fn gen_args(&mut self, args: &Vec<Expr>) -> (text: String)
        requires
            old(self).wf(),
        ensures
            final(self).wf(),
            final(self).level() == old(self).level(),
            final(self).output() == old(self).output() + emit_args(
                exprs_view(*args),
                old(self).level(),
            ).hoisted,
            text@ == emit_args(exprs_view(*args), old(self).level()).text,
        decreases args, 0nat,
    {
        let ghost before = self.output@;
        let ghost level = self.level@;
        let ghost all = exprs_view(*args);
        let mut joined = String::new();
        let mut i: usize = 0;
        assert(self.output@ =~= before + emit_args(all.take(0), level).hoisted);
        while i < args.len()
            invariant
                i <= args.len(),
                self.wf(),
                self.level@ == level,
                all == exprs_view(*args),
                self.output@ == before + emit_args(all.take(i as int), level).hoisted,
                joined@ == emit_args(all.take(i as int), level).text,
            decreases args.len() - i,
        {
            let arg_code = self.gen_expr(&args[i]);
            if i > 0 {
                joined.append(", ");
            }
            joined.append(arg_code.as_str());
            proof {
                assert(all.take(i + 1).drop_last() =~= all.take(i as int));
                assert(all.take(i + 1).last() == args[i as int]@);
                assert(self.output@ =~= before + emit_args(all.take(i + 1), level).hoisted);
                assert(joined@ =~= emit_args(all.take(i + 1), level).text);
            }
            i += 1;
        }
        assert(all.take(i as int) =~= all);
        joined
    }

    /// The text of a literal.
    pub fn gen_literal(&self, lit: &Literal) -> (text: String)
        ensures
            text@ == literal_text(lit@),
    {
        match lit {
            Literal::Int(n) => {
                let mut text = String::new();
                push_int(&mut text, *n);
                assert(text@ =~= int_text(*n as int));
                text
            },
            Literal::Float(digits) => digits.clone(),
            Literal::String(s) => {
                let mut text = String::from_str("\"");
                push_escaped(&mut text, s.as_str());
                text.append("\"");
                text
            },
            Literal::Bool(b) => if *b {
                String::from_str("true")
            } else {
                String::from_str("false")
            },
        }
    }

    /// The C++ spelling of a binary operator.
    pub fn gen_binop(&self, op: &BinOp) -> (text: &'static str)
        ensures
            text@ == binop_text(*op),
    {
        match op {
            BinOp::Add => "+",
            BinOp::Sub => "-",
            BinOp::Mul => "*",
            BinOp::Div => "/",
            BinOp::Mod => "%",
            BinOp::Eq => "==",
            BinOp::Ne => "!=",
            BinOp::Lt => "<",
            BinOp::Gt => ">",
            BinOp::Le => "<=",
            BinOp::Ge => ">=",
            BinOp::And => "&&",
            BinOp::Or => "||",
        }
    }

    /// The C++ spelling of a unary operator.
    pub fn gen_unaryop(&self, op: &UnaryOp) -> (text: &'static str)
        ensures
            text@ == unaryop_text(*op),
    {
        match op {
            UnaryOp::Neg => "-",
            UnaryOp::Not => "!",
        }
    }

    /// Writes the statements of a block, in order, at the current depth.
    pub fn gen_block(&mut self, block: &Block)
        requires
            old(self).wf(),
        ensures
            final(self).wf(),
            final(self).level() == old(self).level(),
            final(self).output() == old(self).output() + emit_block(block@, old(self).level()),
        decreases block, 0nat,
    {
        let ghost before = self.output@;
        let ghost level = self.level@;
        let mut i: usize = 0;
        assert(self.output@ =~= before + emit_block(block@.take(0), level));
        while i < block.0.len()
            invariant
                i <= block.0.len(),
                self.wf(),
                self.level@ == level,
                self.output@ == before + emit_block(block@.take(i as int), level),
            decreases block.0.len() - i,
        {
            self.gen_stmt(&block.0[i]);
            proof {
                assert(block@.take(i + 1).drop_last() =~= block@.take(i as int));
                assert(block@.take(i + 1).last() == block.0[i as int]@);
                assert(self.output@ =~= before + emit_block(block@.take(i + 1), level));
            }
            i += 1;
        }
        assert(block@.take(i as int) =~= block@);
    }

    /// Writes a function definition at the current depth.
    pub fn gen_function(&mut self, f: &FunctionDef)
        requires
            old(self).wf(),
        ensures
            final(self).wf(),
            final(self).level() == old(self).level(),
            final(self).output() == old(self).output() + emit_function(f@, old(self).level()),
        decreases f, 0nat,
    {
        let ghost before = self.output@;
        let ghost level = self.level@;
        let mut head = String::from_str(self.type_to_cpp(&f.return_type));
        head.append(" ");
        head.append(f.name.as_str());
        head.append("(");
        let mut params = String::new();
        let mut i: usize = 0;
        while i < f.params.len()
            invariant
                i <= f.params.len(),
                params@ == emit_params(f@.params.take(i as int)),
            decreases f.params.len() - i,
        {
            if i > 0 {
                params.append(", ");
            }
            params.append(self.type_to_cpp(&f.params[i].1));
            params.append(" ");
            params.append(f.params[i].0.as_str());
            proof {
                let all = f@.params;
                assert(all.take(i + 1).drop_last() =~= all.take(i as int));
                assert(all.take(i + 1).last() == all[i as int]);
                assert(params@ =~= emit_params(all.take(i + 1)));
            }
            i += 1;
        }
        assert(f@.params.take(i as int) =~= f@.params);
        head.append(params.as_str());
        head.append(") {");
        self.gen_braced(head.as_str(), &f.body);
        self.push_line("}");
        self.push_line("");
        proof {
            reveal_strlit("");
            assert(""@ =~= Seq::<char>::empty());
            let opened = braced(head@, f@.body, level);
            lemma_join(before, opened, line(level, "}"@));
            lemma_join(before, opened + line(level, "}"@), line(level, Seq::empty()));
        }
    }

    /// The C++ type that a declared type maps to.
    pub fn type_to_cpp(&self, ty: &Type) -> (text: &'static str)
        ensures
            text@ == type_text(ty@),
    {
        match ty {
            Type::Int => "int",
            Type::Float => "double",
            Type::String => "std::string",
            Type::Bool => "bool",
            Type::Void => "void",
            Type::Custom(_) => "auto",
        }
    }

    /// Writes one line at the current depth.
    pub fn push_line(&mut self, text: &str)
        requires
            old(self).wf(),
        ensures
            final(self).wf(),
            final(self).level() == old(self).level(),
            final(self).output() == old(self).output() + line(old(self).level(), text@),
    {
        self.output.append(self.indent.as_str());
        self.output.append(text);
        self.output.append("\n");
        assert(self.output@ =~= old(self).output@ + line(old(self).level@, text@));
    }

    /// The current nesting depth.
    pub fn depth(&self) -> (depth: usize)
        requires
            self.wf(),
        ensures
            depth == self.level(),
    {
        proof {
            lemma_indentation_len(self.level@);
        }
        self.indent.as_str().unicode_len() / 4
    }

    /// Goes one level deeper.
    pub fn enter(&mut self)
        requires
            old(self).wf(),
        ensures
            final(self).wf(),
            final(self).level() == old(self).level() + 1,
            final(self).output() == old(self).output(),
    {
        self.indent.append("    ");
        self.level = Ghost((self.level@ + 1) as nat);
    }

    /// Comes back one level.
    pub fn leave(&mut self)
        requires
            old(self).wf(),
            old(self).level() > 0,
        ensures
            final(self).wf(),
            final(self).level() == old(self).level() - 1,
            final(self).output() == old(self).output(),
    {
        let ghost outer_level = (self.level@ - 1) as nat;
        proof {
            lemma_indentation_len(self.level@);
            lemma_indentation_len(outer_level);
        }
        let n = self.indent.as_str().unicode_len();
        let outer = String::from_str(self.indent.as_str().substring_char(0, n - 4));
        assert(outer@ =~= indentation(outer_level));
        self.indent = outer;
        self.level = Ghost(outer_level);
    }
}

} // verus!
