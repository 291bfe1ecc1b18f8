use ignite::bytecode::ByteCode;
use ignite::bytecode::ByteCode::{DONE, POP};
use ignite::compiler::Compiler;
use ignite::lexer::lex;
use ignite::parser::Parser;
use ignite::value::Value;

fn exp_compile_str(inp: &str) -> Vec<ByteCode> {
    let toks = lex(inp).expect("Should lex");
    let parser = Parser::new(toks);
    let parsed = parser.parse().expect("Should parse");
    let comp = Compiler::new(parsed);
    comp.compile().expect("Should compile")
}

#[test]
fn test_compile_simple() {
    let res = exp_compile_str("42;");
    assert_eq!(res, vec![ByteCode::ldc(Value::Int(42)), POP, DONE]);

    let res = exp_compile_str("42; 45; 30");
    assert_eq!(
        res,
        vec![
            ByteCode::ldc(Value::Int(42)),
            POP,
            ByteCode::ldc(Value::Int(45)),
            POP,
            ByteCode::ldc(Value::Int(30)),
            DONE
        ]
    );

    let res = exp_compile_str("42; true; 2.36;");
    assert_eq!(
        res,
        vec![
            ByteCode::ldc(Value::Int(42)),
            POP,
            ByteCode::ldc(Value::Bool(true)),
            POP,
            ByteCode::ldc(Value::Float("2.36".to_string())),
            POP,
            DONE
        ]
    )
}
