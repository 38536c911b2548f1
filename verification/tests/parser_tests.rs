use monkey_front::ast::Expression;
use monkey_front::ast::Node;
use monkey_front::ast::Statement;
use monkey_front::lexer::Lexer;
use monkey_front::parser::Parser;

fn parse(input: &str) -> (Option<monkey_front::ast::Program>, Vec<String>) {
    let lexer = Lexer::new(String::from(input));
    let mut p = Parser::new(lexer);
    let program = p.parse_program();
    (program, p.errors)
}

#[test]
fn test_let_statements() {
    let input = String::from(
        "
            return 5;
            return 10;
            return 993322;
            ",
    );

    let lexer = Lexer::new(input);
    let mut p = Parser::new(lexer);
    let program = p.parse_program().unwrap();

    assert_eq!(program.statements.len(), 3)
}

#[test]
fn return_statements_are_return_nodes() {
    let (program, errors) = parse("return 5; return 10; return 993322;");
    assert!(errors.is_empty());
    let program = program.unwrap();
    assert_eq!(program.statements.len(), 3);
    for st in program.statements.iter() {
        assert!(matches!(st, Statement::Return(_)));
        assert_eq!(st.token_literal(), "return");
    }
    assert_eq!(program.string(), "return 5;return 10;return 993322;");
}

#[test]
fn bare_return_has_no_value() {
    let (program, errors) = parse("return;");
    assert!(errors.is_empty());
    let program = program.unwrap();
    assert_eq!(program.statements.len(), 1);
    match &program.statements[0] {
        Statement::Return(rs) => assert!(rs.return_value.is_none()),
        _ => panic!("expected a return statement"),
    }
    assert_eq!(program.string(), "return;");
}

#[test]
fn let_statement_binds_name_and_value() {
    let (program, errors) = parse("let x = 5;");
    assert!(errors.is_empty());
    let program = program.unwrap();
    assert_eq!(program.statements.len(), 1);
    match &program.statements[0] {
        Statement::Let(ls) => {
            assert_eq!(ls.token_literal(), "let");
            assert_eq!(ls.name.value, String::from("x"));
            match &ls.value {
                Expression::IntegerLiteral(il) => assert_eq!(il.token.literal, String::from("5")),
                _ => panic!("expected an integer literal value"),
            }
        },
        _ => panic!("expected a let statement"),
    }
    assert_eq!(program.string(), "let x = 5;");
}

#[test]
fn missing_identifier_records_error_and_yields_no_program() {
    let (program, errors) = parse("let = 5;");
    assert!(program.is_none());
    assert!(!errors.is_empty());
    assert_eq!(
        errors[0],
        String::from("expected next token to be Ident got Assign instead")
    );
}

#[test]
fn missing_assign_records_error() {
    let (program, errors) = parse("let x 5;");
    assert!(program.is_none());
    assert_eq!(
        errors[0],
        String::from("expected next token to be Assign got Int instead")
    );
}

#[test]
fn expression_without_prefix_rule_records_error() {
    let (program, errors) = parse(";");
    assert!(program.is_none());
    assert_eq!(
        errors[0],
        String::from("no prefix parse function for Semicolon found")
    );
}

#[test]
fn product_binds_tighter_than_sum() {
    let (program, errors) = parse("a + b * c");
    assert!(errors.is_empty());
    let program = program.unwrap();
    assert_eq!(program.statements.len(), 1);
    assert_eq!(program.string(), "(a + (b * c))");
}

#[test]
fn operator_precedence_reconstructions() {
    let cases = vec![
        ("-a * b", "((-a) * b)"),
        ("!x", "(!x)"),
        ("a + b + c", "((a + b) + c)"),
        ("a + b - c", "((a + b) - c)"),
        ("a * b * c", "((a * b) * c)"),
        ("a * b / c", "((a * b) / c)"),
        ("a + b / c", "(a + (b / c))"),
        ("3 + 4 * 5 == 3 * 1 + 4 * 5", "((3 + (4 * 5)) == ((3 * 1) + (4 * 5)))"),
        ("5 < 4 != 3 > 4", "((5 < 4) != (3 > 4))"),
        ("a + b * c + d / e - f", "(((a + (b * c)) + (d / e)) - f)"),
        ("!-a", "(!(-a))"),
        ("--a", "(-(-a))"),
    ];
    for (input, expected) in cases {
        let (program, errors) = parse(input);
        assert!(errors.is_empty(), "errors parsing {:?}: {:?}", input, errors);
        assert_eq!(program.unwrap().string(), String::from(expected));
    }
}

#[test]
fn empty_input_parses_to_empty_program() {
    let (program, errors) = parse("");
    assert!(errors.is_empty());
    let program = program.unwrap();
    assert_eq!(program.statements.len(), 0);
    assert_eq!(program.token_literal(), String::new());
}

#[test]
fn statements_work_without_trailing_semicolons() {
    let (program, errors) = parse("let x = a return b foobar");
    assert!(errors.is_empty(), "{:?}", errors);
    let program = program.unwrap();
    assert_eq!(program.statements.len(), 3);
    assert_eq!(program.string(), "let x = a;return b;foobar");
}

#[test]
fn failure_in_later_statement_aborts_whole_parse() {
    let (program, errors) = parse("let x = 1; let = 2;");
    assert!(program.is_none());
    assert_eq!(errors.len(), 1);
}

#[test]
fn illegal_token_has_no_prefix_rule() {
    let (program, errors) = parse("@");
    assert!(program.is_none());
    assert_eq!(
        errors[0],
        String::from("no prefix parse function for Illegal found")
    );
}
