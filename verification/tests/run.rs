use ignite::builtin::{call_builtin, tan, tan_impl};
use ignite::bytecode::ByteCode;
use ignite::compiler::Compiler;
use ignite::error::VmError;
use ignite::lexer::lex;
use ignite::machine::{run, step};
use ignite::micro_code::ld;
use ignite::parser::Parser;
use ignite::runtime::Runtime;
use ignite::value::{FnType, Value};

fn compile_str(inp: &str) -> Vec<ByteCode> {
    let toks = lex(inp).expect("Should lex");
    let parsed = Parser::new(toks).parse().expect("Should parse");
    Compiler::new(parsed).compile().expect("Should compile")
}

#[test]
fn test_round_trip_statement_yields_unit() {
    // `42;` compiles to [load-constant 42, pop, done] and runs to unit
    let code = compile_str("42;");
    assert_eq!(
        code,
        vec![ByteCode::ldc(Value::Int(42)), ByteCode::POP, ByteCode::DONE]
    );
    let rt = Runtime::load(code);
    assert_eq!(run(rt, 100).unwrap(), Some(Value::Unit));
}

#[test]
fn test_round_trip_trailing_expression_yields_value() {
    // `42` (no trailing separator) compiles to [load-constant 42, done] and
    // runs to 42
    let code = compile_str("42");
    assert_eq!(code, vec![ByteCode::ldc(Value::Int(42)), ByteCode::DONE]);
    let rt = Runtime::load(code);
    assert_eq!(run(rt, 100).unwrap(), Some(Value::Int(42)));
}

#[test]
fn test_run_load_symbol_program() {
    // a program can read the pre-bound global constants
    let code = vec![ByteCode::LD("MAX_INT".to_string()), ByteCode::DONE];
    let rt = Runtime::load(code);
    assert_eq!(run(rt, 100).unwrap(), Some(Value::Int(i64::MAX)));
}

#[test]
fn test_run_unbound_name_fails() {
    let code = vec![ByteCode::LD("nope".to_string()), ByteCode::DONE];
    let rt = Runtime::load(code);
    match run(rt, 100) {
        Err(VmError::UnboundedName(n)) => assert_eq!(n, "nope"),
        other => panic!("expected an unbound name error: {:?}", other),
    }
}

#[test]
fn test_step_rejects_pc_out_of_bounds() {
    let rt = Runtime::default(); // empty program
    match step(rt) {
        Err(VmError::PcOutOfBounds(pc)) => assert_eq!(pc, 0),
        other => panic!("expected a pc error: {:?}", other),
    }
}

#[test]
fn test_run_out_of_budget_is_none() {
    let code = vec![ByteCode::ldc(Value::Int(1)), ByteCode::POP, ByteCode::DONE];
    let rt = Runtime::load(code);
    assert_eq!(run(rt, 1).unwrap(), None);
}

#[test]
fn test_extend_environment_length_mismatch() {
    let rt = Runtime::default();
    let env = rt.current_thread.env;
    match ignite::runtime::extend_environment(rt, env, vec!["a", "b"], vec![Value::Int(1)]) {
        Err(VmError::InsufficientArguments { expected, got }) => {
            assert_eq!(expected, 2);
            assert_eq!(got, 1);
        }
        other => panic!("expected an argument count error: {:?}", other),
    }
}

#[test]
fn test_pop_underflow() {
    let rt = Runtime::default();
    match ignite::micro_code::pop(rt) {
        Err(VmError::OperandStackUnderflow) => {}
        other => panic!("expected an underflow: {:?}", other),
    }
}

#[test]
fn test_ld_pushes_a_copy() {
    let mut rt = Runtime::default();
    rt = ld(rt, "PI").unwrap();
    assert_eq!(
        rt.current_thread.operand_stack.last(),
        Some(&Value::Float(format!("{}", std::f64::consts::PI)))
    );
}

#[test]
fn test_call_and_ret_user_closure() {
    // a user closure `f(x) = x` stored as a program literal: call it with 7,
    // return, and halt with the result on the stack
    let f = Value::Closure {
        fn_type: FnType::User,
        sym: "f".to_string(),
        prms: vec!["x".to_string()],
        addr: 4,
        env: Some(0), // the global frame
    };
    let code = vec![
        ByteCode::LDC(f),                      // 0: the callee
        ByteCode::ldc(Value::Int(7)),          // 1: the argument
        ByteCode::CALL(1),                     // 2: enter f
        ByteCode::DONE,                        // 3: return address
        ByteCode::LD("x".to_string()),         // 4: f's body: read the parameter
        ByteCode::RET,                         // 5: back to 3
    ];
    let rt = Runtime::load(code);
    assert_eq!(run(rt, 100).unwrap(), Some(Value::Int(7)));
}

#[test]
fn test_call_min_max_builtins() {
    // the pure comparison builtins are dispatched by the machine itself
    let code = vec![
        ByteCode::LD("min".to_string()),
        ByteCode::ldc(Value::Int(9)),
        ByteCode::ldc(Value::Int(3)),
        ByteCode::CALL(2),
        ByteCode::DONE,
    ];
    assert_eq!(run(Runtime::load(code), 100).unwrap(), Some(Value::Int(3)));
    let code = vec![
        ByteCode::LD("max".to_string()),
        ByteCode::ldc(Value::Int(9)),
        ByteCode::ldc(Value::Int(3)),
        ByteCode::CALL(2),
        ByteCode::DONE,
    ];
    assert_eq!(run(Runtime::load(code), 100).unwrap(), Some(Value::Int(9)));
    // wrong operand kinds are type errors
    let code = vec![
        ByteCode::LD("min".to_string()),
        ByteCode::ldc(Value::Int(9)),
        ByteCode::ldc(Value::Bool(true)),
        ByteCode::CALL(2),
        ByteCode::DONE,
    ];
    match run(Runtime::load(code), 100) {
        Err(VmError::BadType { expected, found }) => {
            assert_eq!(expected, "int");
            assert_eq!(found, "bool");
        }
        other => panic!("expected a type error: {:?}", other),
    }
}

#[test]
fn test_call_protocol_errors() {
    // arity mismatch: the declared parameter count is not the supplied count
    let code = vec![
        ByteCode::LD("min".to_string()),
        ByteCode::ldc(Value::Int(1)),
        ByteCode::CALL(1),
        ByteCode::DONE,
    ];
    match run(Runtime::load(code), 100) {
        Err(VmError::ArityParamsMismatch { arity, params }) => {
            assert_eq!(arity, 2);
            assert_eq!(params, 1);
        }
        other => panic!("expected an arity mismatch: {:?}", other),
    }

    // too few operands at the call site
    let code = vec![ByteCode::CALL(2), ByteCode::DONE];
    match run(Runtime::load(code), 100) {
        Err(VmError::InsufficientArguments { expected, got }) => {
            assert_eq!(expected, 2);
            assert_eq!(got, 0);
        }
        other => panic!("expected insufficient arguments: {:?}", other),
    }

    // a builtin the machine has no native for is unknown at call time
    let code = vec![
        ByteCode::LD("sin".to_string()),
        ByteCode::ldc(Value::Int(1)),
        ByteCode::CALL(1),
        ByteCode::DONE,
    ];
    match run(Runtime::load(code), 100) {
        Err(VmError::UnknownBuiltin { sym }) => assert_eq!(sym, "sin"),
        other => panic!("expected an unknown builtin: {:?}", other),
    }

    // calling something that is not a closure
    let code = vec![
        ByteCode::ldc(Value::Int(5)),
        ByteCode::ldc(Value::Int(1)),
        ByteCode::CALL(1),
        ByteCode::DONE,
    ];
    match run(Runtime::load(code), 100) {
        Err(VmError::BadType { expected, found }) => {
            assert_eq!(expected, "closure");
            assert_eq!(found, "int");
        }
        other => panic!("expected a type error: {:?}", other),
    }

    // a user closure whose captured environment is gone cannot be entered
    let dangling = Value::Closure {
        fn_type: FnType::User,
        sym: "f".to_string(),
        prms: vec![],
        addr: 0,
        env: None,
    };
    let code = vec![ByteCode::LDC(dangling), ByteCode::CALL(0), ByteCode::DONE];
    match run(Runtime::load(code), 100) {
        Err(VmError::EnvironmentDroppedError) => {}
        other => panic!("expected an environment-lifetime error: {:?}", other),
    }

    // returning with no activation record underflows the runtime stack
    let code = vec![ByteCode::RET, ByteCode::DONE];
    match run(Runtime::load(code), 100) {
        Err(VmError::RuntimeStackUnderflow) => {}
        other => panic!("expected a runtime stack underflow: {:?}", other),
    }
}

#[test]
fn test_call_with_native_tan() {
    // with the collaborator's tangent handed in, the tan builtin completes
    let native = format!("{}", 1.0f64.tan());
    let mut rt = Runtime::default();
    rt = ld(rt, "tan").unwrap();
    rt.current_thread.operand_stack.push(Value::Float(format!("{}", 1.0f64)));
    let rt = ignite::micro_code::call_with_native(rt, 1, &native).unwrap();
    assert_eq!(
        rt.current_thread.operand_stack.last(),
        Some(&Value::Float(native.clone()))
    );

    // without it, the machine reports the builtin unknown at call time
    let mut rt = Runtime::default();
    rt = ld(rt, "tan").unwrap();
    rt.current_thread.operand_stack.push(Value::Float(format!("{}", 1.0f64)));
    match ignite::micro_code::call(rt, 1) {
        Err(VmError::UnknownBuiltin { sym }) => assert_eq!(sym, "tan"),
        other => panic!("expected an unknown builtin: {:?}", other),
    }

    // a non-float operand is rejected whatever the collaborator said
    let mut rt = Runtime::default();
    rt = ld(rt, "tan").unwrap();
    rt.current_thread.operand_stack.push(Value::Int(1));
    match ignite::micro_code::call_with_native(rt, 1, &native) {
        Err(VmError::BadType { expected, found }) => {
            assert_eq!(expected, "float");
            assert_eq!(found, "int");
        }
        other => panic!("expected a type error: {:?}", other),
    }
}

#[test]
fn test_tan_closure_shape() {
    match tan() {
        Value::Closure { fn_type, sym, prms, addr, env } => {
            assert_eq!(fn_type, FnType::Builtin);
            assert_eq!(sym, "tan");
            assert_eq!(prms, vec!["x".to_string()]);
            assert_eq!(addr, 0);
            assert_eq!(env, None);
        }
        other => panic!("tan is not a closure: {:?}", other),
    }
}

#[test]
fn test_call_builtin() {
    let x = 0.5f64;
    let operand = Value::Float(format!("{}", x));
    let native = format!("{}", x.tan());

    // the uniform path dispatches tan by its symbol
    let clo = tan();
    assert_eq!(
        call_builtin(&clo, &vec![operand.clone()], &native),
        Ok(Value::Float(native.clone()))
    );

    // an argument count that differs from the declared parameters is an
    // arity mismatch
    match call_builtin(&clo, &vec![], &native) {
        Err(VmError::ArityParamsMismatch { arity, params }) => {
            assert_eq!(arity, 1);
            assert_eq!(params, 0);
        }
        other => panic!("expected an arity mismatch: {:?}", other),
    }

    // a builtin symbol nothing implements is reported as unknown
    let ghost_builtin = Value::Closure {
        fn_type: FnType::Builtin,
        sym: "sinh".to_string(),
        prms: vec!["x".to_string()],
        addr: 0,
        env: None,
    };
    match call_builtin(&ghost_builtin, &vec![operand.clone()], &native) {
        Err(VmError::UnknownBuiltin { sym }) => assert_eq!(sym, "sinh"),
        other => panic!("expected an unknown builtin: {:?}", other),
    }
}

#[test]
fn test_tan_impl() {
    // the native collaborator computes the tangent of the operand's text;
    // tan_impl validates the operand and wraps the result
    let x = 1.0f64;
    let operand = Value::Float(format!("{}", x));
    let native = format!("{}", x.tan());
    assert_eq!(tan_impl(&operand, &native), Ok(Value::Float(format!("{}", x.tan()))));

    // anything but a float is a type error, whatever the collaborator said
    match tan_impl(&Value::Bool(true), &native) {
        Err(VmError::BadType { expected, found }) => {
            assert_eq!(expected, "float");
            assert_eq!(found, "bool");
        }
        other => panic!("expected a type error: {:?}", other),
    }
}
