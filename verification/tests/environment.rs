use ignite::environment::{EnvArena, Environment};
use ignite::value::{FnType, Value};

#[test]
fn test_frame() {
    let mut arena = EnvArena::new();
    let env = Environment::new_wrapped(&mut arena);
    arena.set(env, "x", Value::Int(42));
    assert_eq!(arena.get(env, "x"), Some(Value::Int(42)));
}

#[test]
fn test_frame_with_parent() {
    let mut arena = EnvArena::new();
    let parent_env = Environment::new_wrapped(&mut arena);
    arena.set(parent_env, "x", Value::Int(42));
    let mut child = Environment::new();
    child.set_parent(parent_env);
    child.set("y", Value::Int(43));
    let child_env = arena.add_frame(child);
    assert_eq!(arena.get(child_env, "x"), Some(Value::Int(42)));
    assert_eq!(arena.get(child_env, "y"), Some(Value::Int(43)));
}

#[test]
fn test_shadowing_hides_but_does_not_mutate() {
    let mut arena = EnvArena::new();
    let parent_env = Environment::new_wrapped(&mut arena);
    arena.set(parent_env, "x", Value::Int(1));
    let mut child = Environment::new();
    child.set_parent(parent_env);
    let child_env = arena.add_frame(child);
    // before the child binds x, it sees the ancestor's value
    assert_eq!(arena.get(child_env, "x"), Some(Value::Int(1)));
    // binding x in the child hides the ancestor's binding ...
    arena.set(child_env, "x", Value::Int(2));
    assert_eq!(arena.get(child_env, "x"), Some(Value::Int(2)));
    // ... without mutating it
    assert_eq!(arena.get(parent_env, "x"), Some(Value::Int(1)));
}

#[test]
fn test_set_overwrites_in_place() {
    let mut arena = EnvArena::new();
    let env = Environment::new_wrapped(&mut arena);
    arena.set(env, "x", Value::Int(1));
    arena.set(env, "x", Value::Int(7));
    arena.set(env, "y", Value::Bool(true));
    assert_eq!(arena.get(env, "x"), Some(Value::Int(7)));
    assert_eq!(arena.get(env, "y"), Some(Value::Bool(true)));
    assert_eq!(arena.get(env, "z"), None);
}

#[test]
fn test_global_environment_constants() {
    let mut arena = EnvArena::new();
    let g = Environment::new_global(&mut arena);
    assert_eq!(arena.get(g, "true"), Some(Value::Bool(true)));
    assert_eq!(arena.get(g, "false"), Some(Value::Bool(false)));
    assert_eq!(arena.get(g, "MAX_INT"), Some(Value::Int(i64::MAX)));
    assert_eq!(arena.get(g, "MIN_INT"), Some(Value::Int(i64::MIN)));
    // the textual float constants match what the platform's doubles print as
    assert_eq!(
        arena.get(g, "PI"),
        Some(Value::Float(format!("{}", std::f64::consts::PI)))
    );
    assert_eq!(
        arena.get(g, "E"),
        Some(Value::Float(format!("{}", std::f64::consts::E)))
    );
    assert_eq!(
        arena.get(g, "MAX_FLOAT"),
        Some(Value::Float(format!("{:e}", f64::MAX)))
    );
    assert_eq!(
        arena.get(g, "MIN_FLOAT"),
        Some(Value::Float(format!("{:e}", f64::MIN)))
    );
    assert_eq!(
        arena.get(g, "EPSILON"),
        Some(Value::Float(format!("{:e}", f64::EPSILON)))
    );
    for (sym, arity) in [
        ("sin", 1),
        ("cos", 1),
        ("sqrt", 1),
        ("len", 1),
        ("min", 2),
        ("max", 2),
        ("int_to_float", 1),
        ("float_to_int", 1),
        ("atoi", 1),
    ] {
        match arena.get(g, sym) {
            Some(Value::Closure { fn_type, sym: s, prms, env, .. }) => {
                assert_eq!(fn_type, FnType::Builtin);
                assert_eq!(s, sym);
                assert_eq!(prms.len(), arity);
                assert_eq!(env, None);
            }
            other => panic!("{} is not bound to a builtin closure: {:?}", sym, other),
        }
    }
    match arena.get(g, "tan") {
        Some(Value::Closure { fn_type, sym, prms, addr, env }) => {
            assert_eq!(fn_type, FnType::Builtin);
            assert_eq!(sym, "tan");
            assert_eq!(prms, vec!["x".to_string()]);
            assert_eq!(addr, 0);
            assert_eq!(env, None);
        }
        other => panic!("tan is not bound to a builtin closure: {:?}", other),
    }
}
