use tyr_rust::lang::{ParseError, Parser, Statement, Token, TokenType, Tokenizer};
use tyr_rust::lang::TokenType::{EOF, Identifier, Keyword, Seperator, StringLiteral};

fn example_tokens() -> Vec<Token> {
    vec![
        Token::new(TokenType::Keyword, "fn"),
        Token::new(TokenType::Identifier, "say_hello"),
        Token::new(TokenType::Seperator, "("),
        Token::new(TokenType::Seperator, ")"),
        Token::new(TokenType::Seperator, "{"),
        Token::new(TokenType::Identifier, "println!"),
        Token::new(TokenType::Seperator, "("),
        Token::new(TokenType::StringLiteral, "Hello World!"),
        Token::new(TokenType::Seperator, ")"),
        Token::new(TokenType::Seperator, ";"),
        Token::new(TokenType::Seperator, "}"),
        Token::new(TokenType::Identifier, "say_hello"),
        Token::new(TokenType::Seperator, "("),
        Token::new(TokenType::Seperator, ")"),
        Token::new(TokenType::Seperator, ";"),
        Token::new(TokenType::Seperator, ";"),
        Token::new(TokenType::EOF, ""),
    ]
}

#[test]
fn parses_the_example_program() {
    let mut parser = Parser::new(Tokenizer::new(example_tokens()));
    let prog = parser.parse_prog();
    let stmts = prog.stmts();
    assert_eq!(stmts.len(), 2);
    match &stmts[0] {
        Statement::FnDecl { name, body } => {
            assert_eq!(*name, "say_hello");
            match &**body {
                Statement::FnBody { stmts: Some(calls) } => {
                    assert_eq!(calls.len(), 1);
                    match &calls[0] {
                        Statement::FnCall { name, params, decl } => {
                            assert_eq!(*name, "println!");
                            assert_eq!(params, &Some(vec!["Hello World!"]));
                            assert!(decl.is_none());
                        }
                        other => panic!("unexpected {:?}", other),
                    }
                }
                other => panic!("unexpected {:?}", other),
            }
        }
        other => panic!("unexpected {:?}", other),
    }
    match &stmts[1] {
        Statement::FnCall { name, params, decl } => {
            assert_eq!(*name, "say_hello");
            assert!(params.is_none());
            assert!(decl.is_none());
        }
        other => panic!("unexpected {:?}", other),
    }
}

#[test]
fn failed_parse_restores_position() {
    let mut parser = Parser::new(Tokenizer::new(example_tokens()));
    // a declaration is no call
    assert!(parser.parse_fn_call().is_none());
    assert!(parser.parse_fn_decl().is_some());
    // a call is no declaration, no body
    assert!(parser.parse_fn_decl().is_none());
    assert!(parser.parse_fn_body().is_none());
    assert!(parser.parse_fn_call().is_some());
    // the stray ';' starts nothing
    assert!(parser.parse_fn_call().is_none());
}

#[test]
fn call_with_parameters() {
    let toks = vec![
        Token::new(TokenType::Identifier, "f"),
        Token::new(TokenType::Seperator, "("),
        Token::new(TokenType::StringLiteral, "a"),
        Token::new(TokenType::Seperator, ","),
        Token::new(TokenType::StringLiteral, "b"),
        Token::new(TokenType::Seperator, ")"),
        Token::new(TokenType::Seperator, ";"),
        Token::new(TokenType::EOF, ""),
    ];
    let mut parser = Parser::new(Tokenizer::new(toks));
    match parser.parse_fn_call() {
        Some(Statement::FnCall { name, params, .. }) => {
            assert_eq!(name, "f");
            assert_eq!(params, Some(vec!["a", "b"]));
        }
        other => panic!("unexpected {:?}", other),
    }
}

fn errors_of(toks: Vec<Token>) -> ParseError {
    let mut parser = Parser::new(Tokenizer::new(toks));
    match parser.try_parse_prog() {
        Err(e) => e,
        Ok(_) => panic!("expected an error"),
    }
}

#[test]
fn malformed_streams_are_errors() {
    let t = Token::new;
    assert_eq!(
        errors_of(vec![t(Identifier, "f"), t(Seperator, "("), t(Identifier, "x"), t(EOF, "")]),
        ParseError::MissingParameter("x")
    );
    assert_eq!(
        errors_of(vec![t(Identifier, "f"), t(Seperator, "("), t(StringLiteral, "a"), t(Seperator, ")"), t(EOF, "")]),
        ParseError::MissingSemicolon("")
    );
    assert_eq!(
        errors_of(vec![t(Identifier, "f"), t(Seperator, "("), t(StringLiteral, "a"), t(StringLiteral, "b"), t(EOF, "")]),
        ParseError::MissingComma("b")
    );
    assert_eq!(
        errors_of(vec![t(Identifier, "f"), t(Seperator, "("), t(StringLiteral, "a"), t(Seperator, ","), t(Seperator, ")"), t(EOF, "")]),
        ParseError::MissingParameter(")")
    );
    assert_eq!(
        errors_of(vec![t(Keyword, "fn"), t(Identifier, "g"), t(Seperator, "["), t(EOF, "")]),
        ParseError::MissingOpenParen("[")
    );
    assert_eq!(
        errors_of(vec![t(Keyword, "fn"), t(Identifier, "g"), t(Seperator, "("), t(Seperator, "{"), t(EOF, "")]),
        ParseError::MissingCloseParen("{")
    );
    assert_eq!(
        errors_of(vec![t(Keyword, "fn"), t(Identifier, "g"), t(Seperator, "("), t(Seperator, ")"), t(Seperator, "{"), t(EOF, "")]),
        ParseError::MissingCloseBrace("")
    );
    assert_eq!(
        errors_of(vec![t(Identifier, "f"), t(Seperator, "("), t(StringLiteral, ",")]),
        ParseError::Unterminated
    );
    assert_eq!(errors_of(vec![]), ParseError::NoToken);
    assert_eq!(
        ParseError::MissingComma("x").message(),
        "Expecting a comma in FunctionCall, while we got a x"
    );
}

#[test]
fn declaration_without_body_is_no_declaration() {
    let t = Token::new;
    let mut parser = Parser::new(Tokenizer::new(vec![
        t(Keyword, "fn"),
        t(Identifier, "g"),
        t(Seperator, "("),
        t(Seperator, ")"),
        t(Seperator, ";"),
        t(EOF, ""),
    ]));
    assert!(parser.parse_fn_decl().is_none());
    let prog = parser.try_parse_prog().unwrap();
    assert!(prog.stmts().is_empty());
}

#[test]
fn tokenizer_moves_and_stops_at_the_end() {
    let t = Token::new;
    let mut tz = Tokenizer::new(vec![t(Identifier, "a"), t(EOF, "")]);
    assert_eq!(tz.token(0).text, "a");
    assert_eq!(tz.token(5).text, "");
    assert_eq!(tz.next().text, "a");
    assert_eq!(tz.next().text, "");
    assert_eq!(tz.next().text, "");
    assert_eq!(tz.position(), 2);
    tz.set_position(0);
    tz.forwards(1);
    assert_eq!(tz.position(), 1);
}

#[test]
fn statement_constructors_keep_empty_lists_as_none() {
    match Statement::fn_body(vec![]) {
        Statement::FnBody { stmts } => assert!(stmts.is_none()),
        other => panic!("unexpected {:?}", other),
    }
    match Statement::fn_call("f", vec![]) {
        Statement::FnCall { params, .. } => assert!(params.is_none()),
        other => panic!("unexpected {:?}", other),
    }
    match Statement::fn_decl("g", Statement::fn_body(vec![])) {
        Statement::FnDecl { name, .. } => assert_eq!(name, "g"),
        other => panic!("unexpected {:?}", other),
    }
}

#[test]
fn going_back_undoes_any_run_of_moves() {
    let mut tz = Tokenizer::new(example_tokens());
    tz.forwards(2);
    let q = tz.position();
    let first = *tz.next();
    tz.next();
    tz.forwards(3);
    tz.next();
    tz.set_position(q);
    assert_eq!(tz.position(), q);
    let again = *tz.next();
    assert_eq!(again.kind, first.kind);
    assert_eq!(again.text, first.text);
}

#[test]
fn trailing_comma_makes_no_call() {
    let t = Token::new;
    assert_eq!(
        errors_of(vec![
            t(Identifier, "f"),
            t(Seperator, "("),
            t(StringLiteral, "a"),
            t(Seperator, ","),
            t(Seperator, ")"),
            t(Seperator, ";"),
            t(EOF, ""),
        ]),
        ParseError::MissingParameter(")")
    );
}
