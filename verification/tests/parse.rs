use ignite::lexer::{lex, Token};
use ignite::parser::Parser;

fn test_parse(inp: &str, expected: &str) {
    let toks = lex(inp).expect("Should lex");
    let parser = Parser::new(toks);
    let res = parser.parse().expect("Should parse");
    assert_eq!(res.to_text(), expected);
}

fn test_parse_err(inp: &str, exp_err: &str, contains: bool) {
    let toks = lex(inp).expect("Should lex");
    let parser = Parser::new(toks);
    let res = parser.parse().expect_err("Should err");

    let shown = res.render();
    assert!(shown.starts_with("[ParseError]: "));
    if contains {
        assert!(
            shown.contains(exp_err),
            "message {:?} does not contain {:?}",
            shown,
            exp_err
        );
    } else {
        assert_eq!(res.message(), exp_err);
    }
}

#[test]
fn play() {
    let toks = lex("}").expect("Should lex");
    let p = Parser::new(toks);
    assert!(p.is_peek_token_type(Token::CloseBrace));
}

#[test]
fn test_parse_ints() {
    test_parse("", "");
    test_parse(" 20\n ", "20"); // expr only
    test_parse(" 20;\n ", "20;"); // one exprstmt
    test_parse(" 20 ;30 \n ", "20;30"); // exprstmt, expr
    test_parse(" 20 ;30; \n ", "20;30;"); // exprstmt, exprsmt
    test_parse(" 20 ;30; \n40 \n ", "20;30;40"); // two exprstmt + expr
}

#[test]
fn test_parse_floats() {
    test_parse(" 2.2\n ", "2.2");
    test_parse(" 2.23\n ", "2.23");
    test_parse(" 2.23; 4.5\n ", "2.23;4.5");
    test_parse(" 2.23; 4.5; 4.6\n ", "2.23;4.5;4.6");
}

#[test]
fn test_parse_bools() {
    test_parse("true\n ", "true");
    test_parse("true; false\n ", "true;false");
    test_parse("true; false; true;\n ", "true;false;true;");
    test_parse("true; false; true; false\n ", "true;false;true;false");
}

#[test]
fn test_parse_mixed_primitives() {
    test_parse(
        "true; 2; 4.5; false; 200; 7.289; 90; true",
        "true;2;4.5;false;200;7.289;90;true",
    );
    test_parse(
        "true; 2; 4.5; false; 200; 7.289; 90; true; 2.1;",
        "true;2;4.5;false;200;7.289;90;true;2.1;",
    )
}

#[test]
fn test_parse_let() {
    test_parse("let x = 2;", "let x = 2;");
    test_parse("let x = 2; let y = 3;", "let x = 2;let y = 3;"); // both treated as decls
    test_parse("let x = 2; let y = 3; 30;", "let x = 2;let y = 3;30;"); // 30 is decl
    test_parse("let x = 2; let y = 3; 30", "let x = 2;let y = 3;30"); // 30 is expr

    test_parse("let x = 2; let y = 3; 30; 40; 50", "let x = 2;let y = 3;30;40;50");
    test_parse(
        "let x = 2; let y = 3; 30; 40; 50; let z = 60;",
        "let x = 2;let y = 3;30;40;50;let z = 60;",
    );

    test_parse(
        "let x = 2; let y = 3; 30; 40; 50; let z = 60; true",
        "let x = 2;let y = 3;30;40;50;let z = 60;true",
    );

    // other types
    test_parse(
        "let x = true; let y = 200; let z = 2.2; 3.14159",
        "let x = true;let y = 200;let z = 2.2;3.14159",
    );
}

#[test]
fn test_parse_let_err() {
    test_parse_err("let 2 = 3", "Expected identifier", true);
    test_parse_err("let x 2", "Expected '='", true);
    test_parse_err("let x = 2", "Expected semicolon", true);
    test_parse_err("let x = let y = 3;", "Can't assign", true);
    test_parse_err(";", "Unexpected token", true);
    test_parse_err("=", "Unexpected token", true);
}

#[test]
fn test_errs_for_consecutive_exprs() {
    test_parse_err("20 30", "infix operator", true);
}

#[test]
fn test_parse_binop() {
    test_parse("2+3;", "2+3;");
}

#[test]
fn test_lex_rejects_unknown_character_and_huge_literal() {
    assert!(lex("4 @ 2").is_err(), "a character no token starts with is a lexing error");
    assert!(
        lex("99999999999999999999").is_err(),
        "an integer literal that does not fit is a lexing error"
    );
    // the same digits with a fraction are a float literal, kept as text
    let toks = lex("99999999999999999999.5").unwrap();
    assert_eq!(toks, vec![ignite::lexer::Token::Float("99999999999999999999.5".to_string())]);
}
