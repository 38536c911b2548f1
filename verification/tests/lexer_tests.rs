use monkey_front::lexer::Lexer;
use monkey_front::token::lookup_ident;
use monkey_front::token::TokenKind;

#[test]
fn test_next_token() {
    let input = String::from(
        "let five = 5;
            let ten = 10;
               let add = fn(x, y) {
                 x + y;
            };
            let result = add(five, ten);
            !-/*5;
            5 < 10 > 5;

            if (5 < 10) {
                return true;
            } else {
                return false;
            }

            10 == 10;
            10 != 9;
            ",
    );
    let mut lexer = Lexer::new(input);

    let tests = vec![
        (TokenKind::Let, String::from("let")),
        (TokenKind::Ident, String::from("five")),
        (TokenKind::Assign, String::from("=")),
        (TokenKind::Int, String::from("5")),
        (TokenKind::Semicolon, String::from(";")),
        (TokenKind::Let, String::from("let")),
        (TokenKind::Ident, String::from("ten")),
        (TokenKind::Assign, String::from("=")),
        (TokenKind::Int, String::from("10")),
        (TokenKind::Semicolon, String::from(";")),
        (TokenKind::Let, String::from("let")),
        (TokenKind::Ident, String::from("add")),
        (TokenKind::Assign, String::from("=")),
        (TokenKind::Function, String::from("fn")),
        (TokenKind::LParen, String::from("(")),
        (TokenKind::Ident, String::from("x")),
        (TokenKind::Comma, String::from(",")),
        (TokenKind::Ident, String::from("y")),
        (TokenKind::RParen, String::from(")")),
        (TokenKind::LBrace, String::from("{")),
        (TokenKind::Ident, String::from("x")),
        (TokenKind::Plus, String::from("+")),
        (TokenKind::Ident, String::from("y")),
        (TokenKind::Semicolon, String::from(";")),
        (TokenKind::RBrace, String::from("}")),
        (TokenKind::Semicolon, String::from(";")),
        (TokenKind::Let, String::from("let")),
        (TokenKind::Ident, String::from("result")),
        (TokenKind::Assign, String::from("=")),
        (TokenKind::Ident, String::from("add")),
        (TokenKind::LParen, String::from("(")),
        (TokenKind::Ident, String::from("five")),
        (TokenKind::Comma, String::from(",")),
        (TokenKind::Ident, String::from("ten")),
        (TokenKind::RParen, String::from(")")),
        (TokenKind::Semicolon, String::from(";")),
        (TokenKind::Bang, String::from("!")),
        (TokenKind::Minus, String::from("-")),
        (TokenKind::Slash, String::from("/")),
        (TokenKind::Asterisk, String::from("*")),
        (TokenKind::Int, String::from("5")),
        (TokenKind::Semicolon, String::from(";")),
        (TokenKind::Int, String::from("5")),
        (TokenKind::Lt, String::from("<")),
        (TokenKind::Int, String::from("10")),
        (TokenKind::Gt, String::from(">")),
        (TokenKind::Int, String::from("5")),
        (TokenKind::Semicolon, String::from(";")),
        (TokenKind::If, String::from("if")),
        (TokenKind::LParen, String::from("(")),
        (TokenKind::Int, String::from("5")),
        (TokenKind::Lt, String::from("<")),
        (TokenKind::Int, String::from("10")),
        (TokenKind::RParen, String::from(")")),
        (TokenKind::LBrace, String::from("{")),
        (TokenKind::Return, String::from("return")),
        (TokenKind::True, String::from("true")),
        (TokenKind::Semicolon, String::from(";")),
        (TokenKind::RBrace, String::from("}")),
        (TokenKind::Else, String::from("else")),
        (TokenKind::LBrace, String::from("{")),
        (TokenKind::Return, String::from("return")),
        (TokenKind::False, String::from("false")),
        (TokenKind::Semicolon, String::from(";")),
        (TokenKind::RBrace, String::from("}")),
        (TokenKind::Int, String::from("10")),
        (TokenKind::Eq, String::from("==")),
        (TokenKind::Int, String::from("10")),
        (TokenKind::Semicolon, String::from(";")),
        (TokenKind::Int, String::from("10")),
        (TokenKind::NotEq, String::from("!=")),
        (TokenKind::Int, String::from("9")),
        (TokenKind::Semicolon, String::from(";")),
        (TokenKind::Eof, String::from("")),
    ];

    for test in tests.iter() {
        let _tok = lexer.next_token();
        println!("{:?} ", _tok);
        assert_eq!(_tok.token_kind, test.0);
        assert_eq!(_tok.literal, test.1);
    }
}

#[test]
fn five_token_let_binding() {
    let mut lexer = Lexer::new(String::from("let five = 5;"));
    let expected = vec![
        (TokenKind::Let, "let"),
        (TokenKind::Ident, "five"),
        (TokenKind::Assign, "="),
        (TokenKind::Int, "5"),
        (TokenKind::Semicolon, ";"),
        (TokenKind::Eof, ""),
    ];
    for (kind, literal) in expected {
        let tok = lexer.next_token();
        assert_eq!(tok.token_kind, kind);
        assert_eq!(tok.literal, String::from(literal));
    }
}

#[test]
fn two_char_operator_eq() {
    let mut lexer = Lexer::new(String::from("10 == 10;"));
    let expected = vec![
        (TokenKind::Int, "10"),
        (TokenKind::Eq, "=="),
        (TokenKind::Int, "10"),
        (TokenKind::Semicolon, ";"),
        (TokenKind::Eof, ""),
    ];
    for (kind, literal) in expected {
        let tok = lexer.next_token();
        assert_eq!(tok.token_kind, kind);
        assert_eq!(tok.literal, String::from(literal));
    }
}

#[test]
fn two_char_operator_not_eq() {
    let mut lexer = Lexer::new(String::from("10 != 9;"));
    let expected = vec![
        (TokenKind::Int, "10"),
        (TokenKind::NotEq, "!="),
        (TokenKind::Int, "9"),
        (TokenKind::Semicolon, ";"),
        (TokenKind::Eof, ""),
    ];
    for (kind, literal) in expected {
        let tok = lexer.next_token();
        assert_eq!(tok.token_kind, kind);
        assert_eq!(tok.literal, String::from(literal));
    }
}

#[test]
fn eof_is_idempotent() {
    let mut lexer = Lexer::new(String::from("x + y"));
    loop {
        let tok = lexer.next_token();
        if tok.token_kind == TokenKind::Eof {
            break;
        }
    }
    for _ in 0..5 {
        let tok = lexer.next_token();
        assert_eq!(tok.token_kind, TokenKind::Eof);
        assert_eq!(tok.literal, String::new());
    }
}

#[test]
fn eof_on_empty_and_whitespace_input() {
    let mut lexer = Lexer::new(String::new());
    assert_eq!(lexer.next_token().token_kind, TokenKind::Eof);
    let mut lexer = Lexer::new(String::from("  \t\r\n  "));
    let tok = lexer.next_token();
    assert_eq!(tok.token_kind, TokenKind::Eof);
    assert_eq!(tok.literal, String::new());
}

#[test]
fn unrecognized_byte_is_illegal() {
    let mut lexer = Lexer::new(String::from("a @ b"));
    assert_eq!(lexer.next_token().token_kind, TokenKind::Ident);
    let tok = lexer.next_token();
    assert_eq!(tok.token_kind, TokenKind::Illegal);
    assert_eq!(tok.literal, String::new());
    let tok = lexer.next_token();
    assert_eq!(tok.token_kind, TokenKind::Ident);
    assert_eq!(tok.literal, String::from("b"));
    assert_eq!(lexer.next_token().token_kind, TokenKind::Eof);
}

#[test]
fn identifiers_may_hold_underscores() {
    let mut lexer = Lexer::new(String::from("foo_bar _baz"));
    let tok = lexer.next_token();
    assert_eq!(tok.token_kind, TokenKind::Ident);
    assert_eq!(tok.literal, String::from("foo_bar"));
    let tok = lexer.next_token();
    assert_eq!(tok.token_kind, TokenKind::Ident);
    assert_eq!(tok.literal, String::from("_baz"));
}

#[test]
fn assign_and_bang_without_lookahead_match() {
    let mut lexer = Lexer::new(String::from("=!"));
    assert_eq!(lexer.next_token().token_kind, TokenKind::Assign);
    assert_eq!(lexer.next_token().token_kind, TokenKind::Bang);
    assert_eq!(lexer.next_token().token_kind, TokenKind::Eof);
}

#[test]
fn keyword_table_resolves_all_keywords() {
    assert_eq!(lookup_ident("fn"), TokenKind::Function);
    assert_eq!(lookup_ident("let"), TokenKind::Let);
    assert_eq!(lookup_ident("true"), TokenKind::True);
    assert_eq!(lookup_ident("false"), TokenKind::False);
    assert_eq!(lookup_ident("if"), TokenKind::If);
    assert_eq!(lookup_ident("else"), TokenKind::Else);
    assert_eq!(lookup_ident("return"), TokenKind::Return);
    assert_eq!(lookup_ident("foobar"), TokenKind::Ident);
    assert_eq!(lookup_ident("lets"), TokenKind::Ident);
}
