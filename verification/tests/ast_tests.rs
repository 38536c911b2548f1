use monkey_front::ast::Expression;
use monkey_front::ast::ExpressionStatement;
use monkey_front::ast::Identifier;
use monkey_front::ast::InfixExpression;
use monkey_front::ast::IntegerLiteral;
use monkey_front::ast::LetStatement;
use monkey_front::ast::Node;
use monkey_front::ast::PrefixExpression;
use monkey_front::ast::Program;
use monkey_front::ast::ReturnStatement;
use monkey_front::ast::Statement;
use monkey_front::token::Token;
use monkey_front::token::TokenKind;

fn tok(kind: TokenKind, literal: &str) -> Token {
    Token { token_kind: kind, literal: String::from(literal) }
}

fn ident(name: &str) -> Identifier {
    Identifier { token: tok(TokenKind::Ident, name), value: String::from(name) }
}

#[test]
fn test_string() {
    let program = Program {
        statements: vec![Statement::Let(LetStatement {
            token: Token {
                token_kind: TokenKind::Let,
                literal: String::from("let"),
            },
            name: Identifier {
                token: Token {
                    token_kind: TokenKind::Ident,
                    literal: String::from("myVar"),
                },
                value: String::from("myVar"),
            },
            value: Expression::Identifier(Identifier {
                token: Token {
                    token_kind: TokenKind::Ident,
                    literal: String::from("anotherVar"),
                },
                value: String::from("anotherVar"),
            }),
        })],
    };

    assert_eq!(program.string(), "let myVar = anotherVar;")
}

#[test]
fn empty_program_token_literal_is_empty() {
    let program = Program { statements: vec![] };
    assert_eq!(program.token_literal(), String::new());
    assert_eq!(program.string(), String::new());
}

#[test]
fn return_statement_strings() {
    let with_value = Statement::Return(ReturnStatement {
        token: tok(TokenKind::Return, "return"),
        return_value: Some(Expression::IntegerLiteral(IntegerLiteral {
            token: tok(TokenKind::Int, "5"),
        })),
    });
    assert_eq!(with_value.string(), "return 5;");
    assert_eq!(with_value.token_literal(), "return");

    let bare = Statement::Return(ReturnStatement {
        token: tok(TokenKind::Return, "return"),
        return_value: None,
    });
    assert_eq!(bare.string(), "return;");
}

#[test]
fn prefix_and_infix_strings_parenthesize() {
    let neg = Expression::Prefix(PrefixExpression {
        token: tok(TokenKind::Minus, "-"),
        operator: String::from("-"),
        right: Box::new(Expression::Identifier(ident("a"))),
    });
    assert_eq!(neg.string(), "(-a)");

    let sum = Expression::Infix(InfixExpression {
        token: tok(TokenKind::Plus, "+"),
        left: Box::new(neg),
        operator: String::from("+"),
        right: Box::new(Expression::IntegerLiteral(IntegerLiteral {
            token: tok(TokenKind::Int, "7"),
        })),
    });
    assert_eq!(sum.string(), "((-a) + 7)");
    assert_eq!(sum.token_literal(), "+");
}

#[test]
fn expression_statement_string_is_its_expression() {
    let st = Statement::Expression(ExpressionStatement {
        token: tok(TokenKind::Ident, "x"),
        expression: Expression::Identifier(ident("x")),
    });
    assert_eq!(st.string(), "x");
    assert_eq!(st.token_literal(), "x");
}

#[test]
fn program_concatenates_statement_strings() {
    let program = Program {
        statements: vec![
            Statement::Expression(ExpressionStatement {
                token: tok(TokenKind::Ident, "x"),
                expression: Expression::Identifier(ident("x")),
            }),
            Statement::Return(ReturnStatement {
                token: tok(TokenKind::Return, "return"),
                return_value: Some(Expression::Identifier(ident("y"))),
            }),
        ],
    };
    assert_eq!(program.string(), "xreturn y;");
    assert_eq!(program.token_literal(), "x");
}
