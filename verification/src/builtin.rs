use vstd::prelude::*;

use crate::error::VmError;
use crate::value::{bad_type_error, FnType, Symbol, Value, ValueV};

verus! {

/// The shape of every builtin closure: dispatched natively by its symbol,
/// with its declared parameter names and no captured environment.
pub open spec fn builtin_closure_view(sym: Seq<char>, prms: Seq<Seq<char>>) -> ValueV {
    ValueV::Closure { fn_type: FnType::Builtin, sym, prms, addr: 0, env: None }
}

/// The shape of the `tan` builtin closure: one parameter, no captured
/// environment.
pub open spec fn tan_closure_view() -> ValueV {
    builtin_closure_view("tan"@, seq!["x"@])
}

/// A builtin closure over one parameter `x`.
pub fn builtin_unary(sym: &str) -> (v: Value)
    ensures
        v@ == builtin_closure_view(sym@, seq!["x"@]),
{
    let mut prms: Vec<Symbol> = Vec::new();
    prms.push(String::from_str("x"));
    let v = Value::Closure {
        fn_type: FnType::Builtin,
        sym: String::from_str(sym),
        prms,
        addr: 0,
        env: None,
    };
    proof {
        assert(v@ matches ValueV::Closure { prms: p, .. } && p =~= seq!["x"@]);
    }
    v
}

/// A builtin closure over two parameters `x` and `y`.
pub fn builtin_binary(sym: &str) -> (v: Value)
    ensures
        v@ == builtin_closure_view(sym@, seq!["x"@, "y"@]),
{
    let mut prms: Vec<Symbol> = Vec::new();
    prms.push(String::from_str("x"));
    prms.push(String::from_str("y"));
    let v = Value::Closure {
        fn_type: FnType::Builtin,
        sym: String::from_str(sym),
        prms,
        addr: 0,
        env: None,
    };
    proof {
        assert(v@ matches ValueV::Closure { prms: p, .. } && p =~= seq!["x"@, "y"@]);
    }
    v
}

/// The closure value the global environment binds to `tan`.
pub fn tan() -> (v: Value)
    ensures
        v@ == tan_closure_view(),
{
    builtin_unary("tan")
}

/// What invoking the `tan` builtin returns once the native tangent of the
/// operand reads `tangent` in decimal: that float for a float operand, a
/// type error for anything else.
pub open spec fn tan_impl_post(x: ValueV, tangent: Seq<char>, res: Result<Value, VmError>) -> bool {
    match x {
        ValueV::Float(_) => res matches Ok(v) && v@ == ValueV::Float(tangent),
        _ => res matches Err(e) && bad_type_error(e, "float"@, x),
    }
}

/// The uniform invocation path of the `tan` builtin: validate that the
/// operand is numeric and wrap the native result back into a value.
///
/// The tangent itself is floating-point work, which this library leaves to
/// an outside collaborator: the caller extracts the operand's decimal text
/// (see [`Value::as_float_text`]), has the platform compute its tangent, and
/// hands the printed result in as `tangent`; it is ignored when the operand
/// is rejected.
pub fn tan_impl(x: &Value, tangent: &str) -> (res: Result<Value, VmError>)
    ensures
        tan_impl_post(x@, tangent@, res),
{
    let _text = x.as_float_text()?;
    Ok(Value::Float(String::from_str(tangent)))
}

/// What invoking a builtin closure on an argument list returns: an arity
/// mismatch when the supplied count differs from the declared parameter
/// list, the builtin's own result when the symbol is known (only `tan` is),
/// and an unknown-builtin error naming the symbol otherwise.
pub open spec fn builtin_call_post(
    clo: ValueV,
    args: Seq<Value>,
    native_tan: Seq<char>,
    res: Result<Value, VmError>,
) -> bool {
    match clo {
        ValueV::Closure { sym, prms, .. } => if args.len() != prms.len() {
            res matches Err(e) && (e matches VmError::ArityParamsMismatch { arity, params }
                && arity as int == prms.len() && params as int == args.len())
        } else if sym == "tan"@ {
            if prms.len() == 1 {
                tan_impl_post(args[0]@, native_tan, res)
            } else {
                res matches Err(e) && (e matches VmError::ArityParamsMismatch { arity, params }
                    && arity == 1usize && params as int == args.len())
            }
        } else {
            res matches Err(e) && (e matches VmError::UnknownBuiltin { sym: s } && s@ == sym)
        },
        _ => true,
    }
}

/// Invoke a builtin closure the uniform way: validate the supplied argument
/// count against the declared parameter list, then dispatch on the closure's
/// symbol to the native implementation.
///
/// As with [`tan_impl`], the native float work itself stays outside: the
/// caller hands in `native_tan`, the collaborator's printed tangent of the
/// first argument's text, which is consulted only when the symbol is `tan`.
pub fn call_builtin(clo: &Value, args: &Vec<Value>, native_tan: &str) -> (res: Result<
    Value,
    VmError,
>)
    requires
        clo@ matches ValueV::Closure { fn_type: FnType::Builtin, .. },
    ensures
        builtin_call_post(clo@, args@, native_tan@, res),
{
    match clo {
        Value::Closure { sym, prms, .. } => {
            if args.len() != prms.len() {
                return Err(
                    VmError::ArityParamsMismatch { arity: prms.len(), params: args.len() },
                );
            }
            let tan_sym = String::from_str("tan");
            if *sym == tan_sym {
                if prms.len() == 1 {
                    tan_impl(&args[0], native_tan)
                } else {
                    Err(VmError::ArityParamsMismatch { arity: 1, params: args.len() })
                }
            } else {
                Err(VmError::UnknownBuiltin { sym: sym.clone() })
            }
        },
        _ => Err(VmError::UnknownBuiltin { sym: String::new() }),
    }
}

} // verus!
