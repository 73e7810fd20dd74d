use cvadroscript::ast::{BinOp, Block, Expr, FunctionDef, Literal, Stmt, Type, UnaryOp};
use cvadroscript::lexer::tokenize;
use cvadroscript::parser::{binary_operator, parse_tokens, Expected, ParseError, Parser};
use cvadroscript::token::Token;

fn ident(name: &str) -> Token {
    Token::Ident(name.to_string())
}

fn var(name: &str) -> Expr {
    Expr::Variable(name.to_string())
}

fn num(n: i64) -> Expr {
    Expr::Literal(Literal::Int(n))
}

fn binary(left: Expr, op: BinOp, right: Expr) -> Expr {
    Expr::BinaryOp(Box::new(left), op, Box::new(right))
}

fn parse_text(text: &str) -> Result<Vec<Stmt>, ParseError> {
    parse_tokens(tokenize(text).unwrap())
}

fn parse_expr(text: &str) -> Expr {
    let mut program = parse_text(text).unwrap();
    assert_eq!(program.len(), 1);
    match program.remove(0) {
        Stmt::Expr(e) => e,
        other => panic!("not an expression: {:?}", other),
    }
}

fn failure(expected: Expected, found: Token, position: usize) -> ParseError {
    ParseError { expected, found, position }
}

#[test]
fn parse_no_tokens_is_an_empty_program() {
    assert_eq!(parse_tokens(vec![]), Ok(vec![]));
    assert_eq!(parse_tokens(vec![Token::EOF]), Ok(vec![]));
}

#[test]
fn parse_tokens_after_eof_are_not_read() {
    assert_eq!(parse_tokens(vec![Token::EOF, Token::Plus]), Ok(vec![]));
    assert_eq!(
        parse_tokens(vec![Token::Pass, Token::EOF, Token::Plus]),
        Ok(vec![Stmt::Pass])
    );
}

#[test]
fn parse_binding_of_a_sum() {
    assert_eq!(
        parse_text("let x = 1 + 2"),
        Ok(vec![Stmt::Let("x".to_string(), None, binary(num(1), BinOp::Add, num(2)))])
    );
}

#[test]
fn parse_binding_with_a_declared_type() {
    assert_eq!(
        parse_text("let x: int = 1"),
        Ok(vec![Stmt::Let("x".to_string(), Some(Type::Int), num(1))])
    );
    assert_eq!(
        parse_text("let p: Point = q"),
        Ok(vec![Stmt::Let("p".to_string(), Some(Type::Custom("Point".to_string())), var("q"))])
    );
}

#[test]
fn parse_multiplication_binds_tighter_than_addition() {
    assert_eq!(
        parse_expr("1 + 2 * 3"),
        binary(num(1), BinOp::Add, binary(num(2), BinOp::Mul, num(3)))
    );
    assert_eq!(
        parse_expr("1 * 2 + 3"),
        binary(binary(num(1), BinOp::Mul, num(2)), BinOp::Add, num(3))
    );
}

#[test]
fn parse_parentheses_override_precedence() {
    assert_eq!(
        parse_expr("(1 + 2) * 3"),
        binary(binary(num(1), BinOp::Add, num(2)), BinOp::Mul, num(3))
    );
}

#[test]
fn parse_operators_of_one_tier_fold_to_the_left() {
    assert_eq!(
        parse_expr("1 - 2 + 3 - 4"),
        binary(
            binary(binary(num(1), BinOp::Sub, num(2)), BinOp::Add, num(3)),
            BinOp::Sub,
            num(4)
        )
    );
    assert_eq!(
        parse_expr("8 / 4 % 3 * 2"),
        binary(
            binary(binary(num(8), BinOp::Div, num(4)), BinOp::Mod, num(3)),
            BinOp::Mul,
            num(2)
        )
    );
}

#[test]
fn parse_the_whole_ladder_of_tiers() {
    // a or b and c == d < e + f * -g
    assert_eq!(
        parse_expr("a or b and c == d < e + f * -g"),
        binary(
            var("a"),
            BinOp::Or,
            binary(
                var("b"),
                BinOp::And,
                binary(
                    var("c"),
                    BinOp::Eq,
                    binary(
                        var("d"),
                        BinOp::Lt,
                        binary(
                            var("e"),
                            BinOp::Add,
                            binary(
                                var("f"),
                                BinOp::Mul,
                                Expr::UnaryOp(UnaryOp::Neg, Box::new(var("g")))
                            )
                        )
                    )
                )
            )
        )
    );
}

#[test]
fn parse_every_binary_operator() {
    let cases = [
        ("a + b", BinOp::Add),
        ("a - b", BinOp::Sub),
        ("a * b", BinOp::Mul),
        ("a / b", BinOp::Div),
        ("a % b", BinOp::Mod),
        ("a == b", BinOp::Eq),
        ("a != b", BinOp::Ne),
        ("a < b", BinOp::Lt),
        ("a > b", BinOp::Gt),
        ("a <= b", BinOp::Le),
        ("a >= b", BinOp::Ge),
        ("a and b", BinOp::And),
        ("a or b", BinOp::Or),
    ];
    for (text, op) in cases {
        assert_eq!(parse_expr(text), binary(var("a"), op, var("b")));
    }
}

#[test]
fn parse_prefix_operators_nest() {
    assert_eq!(
        parse_expr("not not x"),
        Expr::UnaryOp(
            UnaryOp::Not,
            Box::new(Expr::UnaryOp(UnaryOp::Not, Box::new(var("x"))))
        )
    );
    assert_eq!(
        parse_expr("- - 1"),
        Expr::UnaryOp(UnaryOp::Neg, Box::new(Expr::UnaryOp(UnaryOp::Neg, Box::new(num(1)))))
    );
}

#[test]
fn parse_prefix_binds_tighter_than_any_binary_operator() {
    assert_eq!(
        parse_expr("-a * b"),
        binary(Expr::UnaryOp(UnaryOp::Neg, Box::new(var("a"))), BinOp::Mul, var("b"))
    );
    assert_eq!(
        parse_expr("not a or b"),
        binary(Expr::UnaryOp(UnaryOp::Not, Box::new(var("a"))), BinOp::Or, var("b"))
    );
}

#[test]
fn parse_literals() {
    assert_eq!(parse_expr("True"), Expr::Literal(Literal::Bool(true)));
    assert_eq!(parse_expr("False"), Expr::Literal(Literal::Bool(false)));
    assert_eq!(parse_expr("42"), num(42));
    assert_eq!(parse_expr("1.5"), Expr::Literal(Literal::Float("1.5".to_string())));
    assert_eq!(parse_expr("'hi'"), Expr::Literal(Literal::String("hi".to_string())));
}

#[test]
fn parse_calls() {
    assert_eq!(parse_expr("f()"), Expr::Call("f".to_string(), vec![]));
    assert_eq!(parse_expr("f(1)"), Expr::Call("f".to_string(), vec![num(1)]));
    assert_eq!(
        parse_expr("f(1, x + 2, g(y))"),
        Expr::Call(
            "f".to_string(),
            vec![
                num(1),
                binary(var("x"), BinOp::Add, num(2)),
                Expr::Call("g".to_string(), vec![var("y")]),
            ]
        )
    );
}

#[test]
fn parse_arguments_are_separated_by_commas() {
    assert_eq!(
        parse_text("f(1 2)"),
        Err(failure(Expected::Separator, Token::Int(2), 3))
    );
    assert_eq!(
        parse_text("f(a b, c)"),
        Err(failure(Expected::Separator, ident("b"), 3))
    );
    assert_eq!(
        parse_text("f(1 + 2 x)"),
        Err(failure(Expected::Separator, ident("x"), 5))
    );
    assert_eq!(
        parse_text("f(1: 2)"),
        Err(failure(Expected::Separator, Token::Colon, 3))
    );
}

#[test]
fn parse_comma_may_follow_the_last_argument() {
    assert_eq!(parse_expr("f(1, 2,)"), Expr::Call("f".to_string(), vec![num(1), num(2)]));
    assert_eq!(parse_expr("f(1,)"), Expr::Call("f".to_string(), vec![num(1)]));
}

#[test]
fn parse_comma_alone_is_no_argument() {
    assert_eq!(parse_text("f(,)"), Err(failure(Expected::Expression, Token::Comma, 2)));
    assert_eq!(parse_text("f(1,,2)"), Err(failure(Expected::Expression, Token::Comma, 4)));
}

#[test]
fn parse_parameters_are_separated_by_commas() {
    let tokens = vec![
        Token::Def,
        ident("f"),
        Token::LParen,
        ident("a"),
        Token::Colon,
        ident("int"),
        ident("b"),
        Token::Colon,
        ident("int"),
        Token::RParen,
        Token::Arrow,
        ident("int"),
        Token::Colon,
        Token::Newline,
        Token::Indent,
        Token::Pass,
        Token::Dedent,
        Token::EOF,
    ];
    assert_eq!(
        parse_tokens(tokens),
        Err(failure(Expected::Separator, ident("b"), 6))
    );
    assert_eq!(
        parse_text("def f(a: int -> int"),
        Err(failure(Expected::Separator, Token::Arrow, 6))
    );
}

#[test]
fn parse_comma_may_follow_the_last_parameter() {
    let mut parser = Parser::new(vec![
        ident("a"),
        Token::Colon,
        ident("int"),
        Token::Comma,
        Token::RParen,
    ]);
    assert_eq!(parser.parameters(), Ok(vec![("a".to_string(), Type::Int)]));
    assert_eq!(parser.peek(), &Token::RParen);
    let mut parser = Parser::new(vec![Token::Comma, Token::RParen]);
    assert_eq!(parser.parameters(), Err(failure(Expected::Identifier, Token::Comma, 0)));
}

#[test]
fn parse_only_a_variable_becomes_a_call() {
    assert_eq!(parse_expr("f(1)(2)"), Expr::Call("f".to_string(), vec![num(1)]));
    assert_eq!(parse_expr("(1 + 2)(3)"), binary(num(1), BinOp::Add, num(2)));
    assert_eq!(parse_expr("7(3)"), num(7));
}

#[test]
fn parse_call_binds_tighter_than_prefix() {
    assert_eq!(
        parse_expr("-f(1)"),
        Expr::UnaryOp(UnaryOp::Neg, Box::new(Expr::Call("f".to_string(), vec![num(1)])))
    );
}

#[test]
fn parse_assignment() {
    assert_eq!(
        parse_text("x = x + 1"),
        Ok(vec![Stmt::Assign("x".to_string(), binary(var("x"), BinOp::Add, num(1)))])
    );
}

#[test]
fn parse_comparison_is_not_an_assignment() {
    assert_eq!(
        parse_text("x == 1"),
        Ok(vec![Stmt::Expr(binary(var("x"), BinOp::Eq, num(1)))])
    );
}

#[test]
fn parse_is_assignment_looks_one_token_ahead() {
    assert!(Parser::new(vec![ident("x"), Token::Eq, Token::Int(1)]).is_assignment());
    assert!(!Parser::new(vec![ident("x"), Token::EqEq, Token::Int(1)]).is_assignment());
    assert!(!Parser::new(vec![ident("x")]).is_assignment());
    assert!(!Parser::new(vec![Token::Int(1), Token::Eq]).is_assignment());
    assert!(!Parser::new(vec![]).is_assignment());
}

#[test]
fn parse_pass_statement() {
    assert_eq!(parse_text("pass"), Ok(vec![Stmt::Pass]));
}

#[test]
fn parse_return_with_and_without_a_value() {
    assert_eq!(
        parse_tokens(vec![Token::Return, ident("x"), Token::EOF]),
        Ok(vec![Stmt::Return(Some(var("x")))])
    );
    let mut parser = Parser::new(vec![Token::Return, Token::Newline, Token::EOF]);
    assert_eq!(parser.statement(), Ok(Stmt::Return(None)));
    assert_eq!(parser.peek(), &Token::Newline);
}

#[test]
fn parse_return_at_the_end_of_the_tokens_wants_a_value() {
    assert_eq!(
        parse_tokens(vec![Token::Return, Token::EOF]),
        Err(failure(Expected::Expression, Token::EOF, 1))
    );
}

#[test]
fn parse_statements_follow_each_other_without_line_breaks() {
    assert_eq!(
        parse_tokens(vec![Token::Pass, Token::Pass, ident("x"), Token::Eq, Token::Int(1)]),
        Ok(vec![Stmt::Pass, Stmt::Pass, Stmt::Assign("x".to_string(), num(1))])
    );
}

#[test]
fn parse_line_break_at_top_level_is_a_syntax_error() {
    assert_eq!(
        parse_text("a\nb"),
        Err(failure(Expected::Expression, Token::Newline, 1))
    );
}

fn add_tokens() -> Vec<Token> {
    vec![
        Token::Def,
        ident("add"),
        Token::LParen,
        ident("a"),
        Token::Colon,
        ident("int"),
        Token::Comma,
        ident("b"),
        Token::Colon,
        ident("int"),
        Token::RParen,
        Token::Arrow,
        ident("int"),
        Token::Colon,
        Token::Newline,
        Token::Indent,
        Token::Return,
        ident("a"),
        Token::Plus,
        ident("b"),
        Token::Dedent,
        Token::EOF,
    ]
}

#[test]
fn parse_function_of_two_integers() {
    assert_eq!(
        parse_tokens(add_tokens()),
        Ok(vec![Stmt::Function(FunctionDef {
            name: "add".to_string(),
            params: vec![("a".to_string(), Type::Int), ("b".to_string(), Type::Int)],
            return_type: Type::Int,
            body: Block(vec![Stmt::Return(Some(binary(var("a"), BinOp::Add, var("b"))))]),
        })])
    );
}

#[test]
fn parse_parsing_twice_gives_the_same_tree() {
    assert_eq!(parse_tokens(add_tokens()), parse_tokens(add_tokens()));
    let mut broken = add_tokens();
    broken.remove(11);
    assert_eq!(parse_tokens(broken.clone()), parse_tokens(broken));
}

#[test]
fn parse_function_without_parameters() {
    let tokens = vec![
        Token::Def,
        ident("main"),
        Token::LParen,
        Token::RParen,
        Token::Arrow,
        ident("void"),
        Token::Colon,
        Token::Newline,
        Token::Indent,
        Token::Pass,
        Token::Newline,
        Token::Pass,
        Token::Newline,
        Token::Dedent,
    ];
    assert_eq!(
        parse_tokens(tokens),
        Ok(vec![Stmt::Function(FunctionDef {
            name: "main".to_string(),
            params: vec![],
            return_type: Type::Void,
            body: Block(vec![Stmt::Pass, Stmt::Pass]),
        })])
    );
}

#[test]
fn parse_every_type_name() {
    let cases = [
        ("int", Type::Int),
        ("float", Type::Float),
        ("string", Type::String),
        ("bool", Type::Bool),
        ("void", Type::Void),
        ("Int", Type::Custom("Int".to_string())),
        ("integer", Type::Custom("integer".to_string())),
    ];
    for (name, ty) in cases {
        let mut parser = Parser::new(vec![ident(name), Token::Comma]);
        assert_eq!(parser.parse_type(), Ok(ty));
        assert_eq!(parser.peek(), &Token::Comma);
    }
}

#[test]
fn parse_keyword_is_no_type_name() {
    let mut parser = Parser::new(vec![Token::Int(1)]);
    assert_eq!(parser.parse_type(), Err(failure(Expected::TypeName, Token::Int(1), 0)));
    assert_eq!(
        parse_text("let x: 5 = 1"),
        Err(failure(Expected::TypeName, Token::Int(5), 3))
    );
}

#[test]
fn parse_conditional_with_both_branches() {
    let tokens = vec![
        Token::If,
        ident("x"),
        Token::Gt,
        Token::Int(0),
        Token::Colon,
        Token::Newline,
        Token::Indent,
        Token::Pass,
        Token::Dedent,
        Token::Else,
        Token::Colon,
        Token::Newline,
        Token::Indent,
        Token::Pass,
        Token::Dedent,
        Token::EOF,
    ];
    assert_eq!(
        parse_tokens(tokens),
        Ok(vec![Stmt::Expr(Expr::If(
            Box::new(binary(var("x"), BinOp::Gt, num(0))),
            Block(vec![Stmt::Pass]),
            Some(Block(vec![Stmt::Pass])),
        ))])
    );
}

#[test]
fn parse_conditional_without_else() {
    let tokens = vec![
        Token::If,
        ident("x"),
        Token::Colon,
        Token::Newline,
        Token::Indent,
        ident("y"),
        Token::Eq,
        Token::Int(1),
        Token::Newline,
        Token::Dedent,
        Token::Pass,
    ];
    assert_eq!(
        parse_tokens(tokens),
        Ok(vec![
            Stmt::Expr(Expr::If(
                Box::new(var("x")),
                Block(vec![Stmt::Assign("y".to_string(), num(1))]),
                None,
            )),
            Stmt::Pass,
        ])
    );
}

#[test]
fn parse_while_loop() {
    let tokens = vec![
        Token::While,
        ident("x"),
        Token::Lt,
        Token::Int(3),
        Token::Colon,
        Token::Newline,
        Token::Indent,
        Token::Pass,
        Token::Dedent,
    ];
    assert_eq!(
        parse_tokens(tokens),
        Ok(vec![Stmt::Expr(Expr::While(
            Box::new(binary(var("x"), BinOp::Lt, num(3))),
            Block(vec![Stmt::Pass]),
        ))])
    );
}

#[test]
fn parse_for_loop() {
    let tokens = vec![
        Token::For,
        ident("i"),
        Token::In,
        ident("items"),
        Token::Colon,
        Token::Newline,
        Token::Indent,
        ident("print"),
        Token::LParen,
        ident("i"),
        Token::RParen,
        Token::Dedent,
    ];
    assert_eq!(
        parse_tokens(tokens),
        Ok(vec![Stmt::Expr(Expr::For(
            "i".to_string(),
            Box::new(var("items")),
            Block(vec![Stmt::Expr(Expr::Call("print".to_string(), vec![var("i")]))]),
        ))])
    );
}

#[test]
fn parse_nested_blocks() {
    let tokens = vec![
        Token::While,
        ident("a"),
        Token::Colon,
        Token::Newline,
        Token::Indent,
        Token::If,
        ident("b"),
        Token::Colon,
        Token::Newline,
        Token::Indent,
        Token::Pass,
        Token::Dedent,
        Token::Pass,
        Token::Dedent,
        Token::Pass,
    ];
    assert_eq!(
        parse_tokens(tokens),
        Ok(vec![
            Stmt::Expr(Expr::While(
                Box::new(var("a")),
                Block(vec![
                    Stmt::Expr(Expr::If(Box::new(var("b")), Block(vec![Stmt::Pass]), None)),
                    Stmt::Pass,
                ]),
            )),
            Stmt::Pass,
        ])
    );
}

#[test]
fn parse_block_may_end_with_the_tokens() {
    let tokens = vec![
        Token::While,
        ident("a"),
        Token::Colon,
        Token::Newline,
        Token::Indent,
        Token::Pass,
    ];
    assert_eq!(
        parse_tokens(tokens),
        Ok(vec![Stmt::Expr(Expr::While(Box::new(var("a")), Block(vec![Stmt::Pass])))])
    );
}

#[test]
fn parse_block_may_be_empty() {
    let mut parser = Parser::new(vec![Token::Dedent, Token::Pass]);
    assert_eq!(parser.block(), Ok(Block(vec![])));
    assert_eq!(parser.peek(), &Token::Pass);
}

#[test]
fn parse_block_needs_a_line_break_before_its_indent() {
    assert_eq!(
        parse_text("if x:\n    pass"),
        Err(failure(Expected::Token(Token::Newline), Token::Indent, 3))
    );
}

#[test]
fn parse_missing_expression() {
    assert_eq!(parse_text("1 +"), Err(failure(Expected::Expression, Token::EOF, 2)));
    assert_eq!(parse_text("let x ="), Err(failure(Expected::Expression, Token::EOF, 3)));
    assert_eq!(parse_text(")"), Err(failure(Expected::Expression, Token::RParen, 0)));
    assert_eq!(parse_text("* 2"), Err(failure(Expected::Expression, Token::Star, 0)));
}

#[test]
fn parse_missing_closing_parenthesis() {
    assert_eq!(
        parse_text("(1 + 2"),
        Err(failure(Expected::Token(Token::RParen), Token::EOF, 4))
    );
    assert_eq!(parse_text("f(1, 2"), Err(failure(Expected::Separator, Token::EOF, 5)));
    assert_eq!(parse_text("f(1,"), Err(failure(Expected::Expression, Token::EOF, 4)));
    assert_eq!(parse_text("f("), Err(failure(Expected::Expression, Token::EOF, 2)));
}

#[test]
fn parse_missing_identifier() {
    assert_eq!(parse_text("let 5 = 1"), Err(failure(Expected::Identifier, Token::Int(5), 1)));
    assert_eq!(parse_text("def (x)"), Err(failure(Expected::Identifier, Token::LParen, 1)));
    assert_eq!(
        parse_text("for 1 in x"),
        Err(failure(Expected::Identifier, Token::Int(1), 1))
    );
}

#[test]
fn parse_missing_tokens_in_a_definition() {
    assert_eq!(
        parse_text("let x 1"),
        Err(failure(Expected::Token(Token::Eq), Token::Int(1), 2))
    );
    assert_eq!(
        parse_text("def f x"),
        Err(failure(Expected::Token(Token::LParen), ident("x"), 2))
    );
    assert_eq!(
        parse_text("def f(a int)"),
        Err(failure(Expected::Token(Token::Colon), ident("int"), 4))
    );
    assert_eq!(
        parse_text("def f() int"),
        Err(failure(Expected::Token(Token::Arrow), ident("int"), 4))
    );
    assert_eq!(
        parse_text("def f() -> int pass"),
        Err(failure(Expected::Token(Token::Colon), Token::Pass, 6))
    );
    assert_eq!(
        parse_text("for i x"),
        Err(failure(Expected::Token(Token::In), ident("x"), 2))
    );
    assert_eq!(
        parse_text("def f(a: int"),
        Err(failure(Expected::Separator, Token::EOF, 6))
    );
    assert_eq!(
        parse_text("def f(a: int,"),
        Err(failure(Expected::Identifier, Token::EOF, 7))
    );
}

#[test]
fn parse_error_inside_a_block_ends_the_parse() {
    let tokens = vec![
        Token::If,
        ident("x"),
        Token::Colon,
        Token::Newline,
        Token::Indent,
        Token::Plus,
        Token::Dedent,
    ];
    assert_eq!(parse_tokens(tokens), Err(failure(Expected::Expression, Token::Plus, 5)));
}

#[test]
fn parse_consume_takes_a_token_of_the_same_kind() {
    let mut parser = Parser::new(vec![ident("a"), Token::Plus]);
    assert_eq!(parser.consume(&ident("other")), Ok(()));
    assert_eq!(parser.consume(&Token::Plus), Ok(()));
    assert_eq!(
        parser.consume(&Token::Plus),
        Err(failure(Expected::Token(Token::Plus), Token::EOF, 2))
    );
}

#[test]
fn parse_consume_ident_returns_the_name() {
    let mut parser = Parser::new(vec![ident("a"), Token::Plus]);
    assert_eq!(parser.consume_ident(), Ok("a".to_string()));
    assert_eq!(
        parser.consume_ident(),
        Err(failure(Expected::Identifier, Token::Plus, 1))
    );
    assert_eq!(parser.peek(), &Token::Plus);
}

#[test]
fn parse_cursor_walks_the_tokens_and_stops_at_eof() {
    let mut parser = Parser::new(vec![Token::Plus, Token::Minus, Token::EOF, Token::Star]);
    assert!(!parser.is_at_end());
    assert_eq!(parser.peek(), &Token::Plus);
    parser.advance();
    assert_eq!(parser.previous(), &Token::Plus);
    assert_eq!(parser.peek(), &Token::Minus);
    parser.advance();
    assert_eq!(parser.previous(), &Token::Minus);
    assert!(parser.is_at_end());
    parser.advance();
    assert_eq!(parser.peek(), &Token::EOF);
    assert_eq!(parser.previous(), &Token::Minus);
}

#[test]
fn parse_peek_past_the_end_is_eof() {
    let mut parser = Parser::new(vec![Token::Plus]);
    parser.advance();
    assert!(parser.is_at_end());
    assert_eq!(parser.peek(), &Token::EOF);
    parser.advance();
    assert_eq!(parser.peek(), &Token::EOF);
    assert!(Parser::new(vec![]).is_at_end());
}

#[test]
fn parse_parse_goes_on_from_where_the_parser_stands() {
    let mut parser = Parser::new(vec![Token::Plus, Token::Pass, Token::Pass]);
    parser.advance();
    assert_eq!(parser.parse(), Ok(vec![Stmt::Pass, Stmt::Pass]));
    assert!(parser.is_at_end());
    assert_eq!(parser.parse(), Ok(vec![]));
}

#[test]
fn parse_parser_stands_at_the_offending_token_after_an_error() {
    let mut parser = Parser::new(vec![Token::Int(1), Token::Plus, Token::RParen]);
    assert_eq!(parser.parse(), Err(failure(Expected::Expression, Token::RParen, 2)));
    assert_eq!(parser.peek(), &Token::RParen);
}

#[test]
fn parse_tier_parses_from_its_level_up() {
    let tokens = || vec![Token::Int(1), Token::Star, Token::Int(2), Token::Plus, Token::Int(3)];
    let mut parser = Parser::new(tokens());
    assert_eq!(parser.tier(5), Ok(binary(num(1), BinOp::Mul, num(2))));
    assert_eq!(parser.peek(), &Token::Plus);
    let mut parser = Parser::new(tokens());
    assert_eq!(parser.tier(6), Ok(num(1)));
    assert_eq!(parser.peek(), &Token::Star);
    let mut parser = Parser::new(tokens());
    assert_eq!(
        parser.tier(4),
        Ok(binary(binary(num(1), BinOp::Mul, num(2)), BinOp::Add, num(3)))
    );
    let mut parser = Parser::new(tokens());
    assert_eq!(parser.expression(), parse_tokens(tokens()).map(|mut p| match p.remove(0) {
        Stmt::Expr(e) => e,
        other => panic!("not an expression: {:?}", other),
    }));
}

#[test]
fn parse_operators_belong_to_one_tier_each() {
    assert_eq!(binary_operator(0, &Token::Or), Some(BinOp::Or));
    assert_eq!(binary_operator(1, &Token::And), Some(BinOp::And));
    assert_eq!(binary_operator(2, &Token::EqEq), Some(BinOp::Eq));
    assert_eq!(binary_operator(2, &Token::Ne), Some(BinOp::Ne));
    assert_eq!(binary_operator(3, &Token::Lt), Some(BinOp::Lt));
    assert_eq!(binary_operator(3, &Token::Le), Some(BinOp::Le));
    assert_eq!(binary_operator(3, &Token::Gt), Some(BinOp::Gt));
    assert_eq!(binary_operator(3, &Token::Ge), Some(BinOp::Ge));
    assert_eq!(binary_operator(4, &Token::Plus), Some(BinOp::Add));
    assert_eq!(binary_operator(4, &Token::Minus), Some(BinOp::Sub));
    assert_eq!(binary_operator(5, &Token::Star), Some(BinOp::Mul));
    assert_eq!(binary_operator(5, &Token::Slash), Some(BinOp::Div));
    assert_eq!(binary_operator(5, &Token::Percent), Some(BinOp::Mod));
    assert_eq!(binary_operator(4, &Token::Star), None);
    assert_eq!(binary_operator(5, &Token::Plus), None);
    assert_eq!(binary_operator(6, &Token::Plus), None);
    assert_eq!(binary_operator(0, &Token::Eq), None);
}

#[test]
fn parse_arguments_and_parameters_stop_before_the_parenthesis() {
    let mut parser = Parser::new(vec![Token::Int(1), Token::Comma, Token::Int(2), Token::RParen]);
    assert_eq!(parser.arguments(), Ok(vec![num(1), num(2)]));
    assert_eq!(parser.peek(), &Token::RParen);
    let mut parser = Parser::new(vec![
        ident("a"),
        Token::Colon,
        ident("float"),
        Token::Comma,
        ident("b"),
        Token::Colon,
        ident("T"),
        Token::RParen,
    ]);
    assert_eq!(
        parser.parameters(),
        Ok(vec![
            ("a".to_string(), Type::Float),
            ("b".to_string(), Type::Custom("T".to_string())),
        ])
    );
    assert_eq!(parser.peek(), &Token::RParen);
}

#[test]
fn parse_signature_stops_before_the_colon() {
    let mut tokens = add_tokens();
    tokens.truncate(14);
    let mut parser = Parser::new(tokens);
    assert_eq!(
        parser.signature(),
        Ok((
            "add".to_string(),
            vec![("a".to_string(), Type::Int), ("b".to_string(), Type::Int)],
            Type::Int,
        ))
    );
    assert_eq!(parser.peek(), &Token::Colon);
}

#[test]
fn parse_suite_wants_colon_line_break_and_indent() {
    let mut parser = Parser::new(vec![
        Token::Colon,
        Token::Newline,
        Token::Indent,
        Token::Pass,
        Token::Dedent,
        Token::Pass,
    ]);
    assert_eq!(parser.suite(), Ok(Block(vec![Stmt::Pass])));
    assert_eq!(parser.peek(), &Token::Pass);
    let mut parser = Parser::new(vec![Token::Colon, Token::Newline, Token::Pass]);
    assert_eq!(
        parser.suite(),
        Err(failure(Expected::Token(Token::Indent), Token::Pass, 2))
    );
    let mut parser = Parser::new(vec![Token::Newline]);
    assert_eq!(
        parser.suite(),
        Err(failure(Expected::Token(Token::Colon), Token::Newline, 0))
    );
}

#[test]
fn parse_each_statement_method() {
    let mut parser = Parser::new(vec![Token::Let, ident("x"), Token::Eq, Token::Int(1)]);
    assert_eq!(parser.let_stmt(), Ok(Stmt::Let("x".to_string(), None, num(1))));
    let mut parser = Parser::new(vec![Token::Let, ident("x"), Token::Eq, Token::Int(1)]);
    assert_eq!(parser.declaration(), Ok(Stmt::Let("x".to_string(), None, num(1))));
    let mut parser = Parser::new(vec![Token::Pass]);
    assert_eq!(
        parser.let_stmt(),
        Err(failure(Expected::Token(Token::Let), Token::Pass, 0))
    );
    let mut parser = Parser::new(vec![Token::Pass]);
    assert_eq!(parser.if_stmt(), Err(failure(Expected::Token(Token::If), Token::Pass, 0)));
    let mut parser = Parser::new(vec![Token::Pass]);
    assert_eq!(
        parser.while_stmt(),
        Err(failure(Expected::Token(Token::While), Token::Pass, 0))
    );
    let mut parser = Parser::new(vec![Token::Pass]);
    assert_eq!(parser.for_stmt(), Err(failure(Expected::Token(Token::For), Token::Pass, 0)));
    let mut parser = Parser::new(vec![Token::Pass]);
    assert_eq!(parser.function(), Err(failure(Expected::Token(Token::Def), Token::Pass, 0)));
    let mut parser = Parser::new(add_tokens());
    assert!(matches!(parser.function(), Ok(Stmt::Function(_))));
    assert!(parser.is_at_end());
}

#[test]
fn parse_unary_call_and_primary_methods() {
    let tokens = || vec![Token::Minus, ident("f"), Token::LParen, Token::RParen, Token::Star];
    let mut parser = Parser::new(tokens());
    assert_eq!(
        parser.unary(),
        Ok(Expr::UnaryOp(UnaryOp::Neg, Box::new(Expr::Call("f".to_string(), vec![]))))
    );
    assert_eq!(parser.peek(), &Token::Star);
    let mut parser = Parser::new(tokens());
    assert_eq!(parser.call(), Err(failure(Expected::Expression, Token::Minus, 0)));
    let mut parser = Parser::new(tokens());
    parser.advance();
    assert_eq!(parser.primary(), Ok(var("f")));
    assert_eq!(parser.peek(), &Token::LParen);
    let mut parser = Parser::new(tokens());
    parser.advance();
    assert_eq!(parser.call(), Ok(Expr::Call("f".to_string(), vec![])));
}

#[test]
fn parse_stops_on_the_last_token_of_a_lexed_text() {
    for text in ["", "pass", "let x = 1 + 2", "f(1, 2) g(3)", "x = -y * (z + 1)"] {
        let tokens = tokenize(text).unwrap();
        let last = tokens.len() - 1;
        assert_eq!(tokens[last], Token::EOF);
        let mut parser = Parser::new(tokens);
        assert_eq!(parser.offset(), 0);
        assert!(parser.parse().is_ok());
        assert_eq!(parser.offset(), last);
        assert_eq!(parser.peek(), &Token::EOF);
    }
}

#[test]
fn parse_stops_at_the_first_eof_or_at_the_end() {
    let mut parser = Parser::new(vec![Token::Pass, Token::Pass, Token::EOF, Token::Pass, Token::EOF]);
    assert_eq!(parser.parse(), Ok(vec![Stmt::Pass, Stmt::Pass]));
    assert_eq!(parser.offset(), 2);
    let mut parser = Parser::new(vec![Token::Pass, Token::Pass]);
    assert_eq!(parser.parse(), Ok(vec![Stmt::Pass, Stmt::Pass]));
    assert_eq!(parser.offset(), 2);
    let mut parser = Parser::new(vec![]);
    assert_eq!(parser.parse(), Ok(vec![]));
    assert_eq!(parser.offset(), 0);
}

#[test]
fn parse_offset_after_an_error_is_that_of_the_fault() {
    let mut parser = Parser::new(tokenize("let x = (1 + ").unwrap());
    let error = parser.parse().unwrap_err();
    assert_eq!(error, failure(Expected::Expression, Token::EOF, 6));
    assert_eq!(parser.offset(), 6);
}
