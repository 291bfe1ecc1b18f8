use vstd::prelude::*;

use crate::error::VmError;

verus! {

/// A name that programs bind values to.
pub type Symbol = String;

/// Whether a closure is a user function (code at a bytecode address) or a
/// builtin dispatched natively by its symbol.
#[derive(Debug, Clone, Copy, PartialEq, Eq, Structural)]
pub enum FnType {
    User,
    Builtin,
}

/// A runtime datum.
///
/// Floats are carried as their decimal text (the literal as written, or
/// what a native collaborator printed): the runtime never computes on them
/// itself, it only moves them around and hands them to native builtin
/// implementations.
///
/// A `Semaphore` value is a handle into the runtime's semaphore table, so
/// several values and threads can share one counter. A `Closure`'s captured
/// environment is a handle into the environment arena (`None` for builtins,
/// which capture nothing).
#[derive(Debug, Clone, PartialEq)]
pub enum Value {
    Unit,
    Int(i64),
    Float(String),
    Bool(bool),
    Semaphore(usize),
    Closure { fn_type: FnType, sym: Symbol, prms: Vec<Symbol>, addr: usize, env: Option<usize> },
}

/// The mathematical shape of a `Value`: symbols and float texts become
/// character sequences.
pub enum ValueV {
    Unit,
    Int(i64),
    Float(Seq<char>),
    Bool(bool),
    Semaphore(usize),
    Closure { fn_type: FnType, sym: Seq<char>, prms: Seq<Seq<char>>, addr: usize, env: Option<usize> },
}

impl View for Value {
    type V = ValueV;

    open spec fn view(&self) -> ValueV {
        match self {
            Value::Unit => ValueV::Unit,
            Value::Int(i) => ValueV::Int(*i),
            Value::Float(t) => ValueV::Float(t@),
            Value::Bool(b) => ValueV::Bool(*b),
            Value::Semaphore(s) => ValueV::Semaphore(*s),
            Value::Closure { fn_type, sym, prms, addr, env } => ValueV::Closure {
                fn_type: *fn_type,
                sym: sym@,
                prms: prms@.map_values(|p: Symbol| p@),
                addr: *addr,
                env: *env,
            },
        }
    }
}

/// Whether a value's handles stay inside a machine with `n_frames` allocated
/// environment frames and `n_sems` semaphores.
pub open spec fn value_wf(v: ValueV, n_frames: int, n_sems: int) -> bool {
    match v {
        ValueV::Semaphore(s) => (s as int) < n_sems,
        ValueV::Closure { env, .. } => match env {
            Some(e) => (e as int) < n_frames,
            None => true,
        },
        _ => true,
    }
}

/// The kind name a value contributes to type errors.
pub open spec fn kind_name_of(v: ValueV) -> Seq<char> {
    match v {
        ValueV::Unit => "unit"@,
        ValueV::Int(_) => "int"@,
        ValueV::Float(_) => "float"@,
        ValueV::Bool(_) => "bool"@,
        ValueV::Semaphore(_) => "semaphore"@,
        ValueV::Closure { .. } => "closure"@,
    }
}

/// The error produced when `v` was found where a `expected` was needed.
pub open spec fn bad_type_error(e: VmError, expected: Seq<char>, v: ValueV) -> bool {
    &&& e matches VmError::BadType { expected: ex, found: f }
    &&& ex@ == expected
    &&& f@ == kind_name_of(v)
}

impl Value {
    /// An owned copy with the same mathematical value.
    pub fn dup(&self) -> (r: Value)
        ensures
            r@ == self@,
    {
        match self {
            Value::Unit => Value::Unit,
            Value::Int(i) => Value::Int(*i),
            Value::Float(t) => Value::Float(t.clone()),
            Value::Bool(b) => Value::Bool(*b),
            Value::Semaphore(s) => Value::Semaphore(*s),
            Value::Closure { fn_type, sym, prms, addr, env } => {
                let mut ps: Vec<Symbol> = Vec::new();
                let mut i: usize = 0;
                while i < prms.len()
                    invariant
                        i <= prms@.len(),
                        ps@.len() == i as int,
                        forall|j: int| 0 <= j < i as int ==> ps@[j]@ == prms@[j]@,
                    decreases prms@.len() - i,
                {
                    ps.push(prms[i].clone());
                    i += 1;
                }
                proof {
                    assert(ps@.map_values(|p: Symbol| p@) =~= prms@.map_values(|p: Symbol| p@));
                }
                Value::Closure {
                    fn_type: *fn_type,
                    sym: sym.clone(),
                    prms: ps,
                    addr: *addr,
                    env: *env,
                }
            },
        }
    }

    /// The kind name used in type errors.
    pub fn kind_name(&self) -> (r: &'static str)
        ensures
            r@ == kind_name_of(self@),
    {
        match self {
            Value::Unit => "unit",
            Value::Int(_) => "int",
            Value::Float(_) => "float",
            Value::Bool(_) => "bool",
            Value::Semaphore(_) => "semaphore",
            Value::Closure { .. } => "closure",
        }
    }

    /// Extract the semaphore handle, or report what was found instead.
    pub fn as_semaphore(&self) -> (res: Result<usize, VmError>)
        ensures
            match self@ {
                ValueV::Semaphore(s) => res == Ok::<usize, VmError>(s),
                _ => res matches Err(e) && bad_type_error(e, "semaphore"@, self@),
            },
    {
        match self {
            Value::Semaphore(s) => Ok(*s),
            _ => Err(VmError::BadType {
                expected: String::from_str("semaphore"),
                found: String::from_str(self.kind_name()),
            }),
        }
    }

    /// Extract the float's text, or report what was found instead.
    pub fn as_float_text(&self) -> (res: Result<String, VmError>)
        ensures
            match self@ {
                ValueV::Float(t) => res matches Ok(s) && s@ == t,
                _ => res matches Err(e) && bad_type_error(e, "float"@, self@),
            },
    {
        match self {
            Value::Float(t) => Ok(t.clone()),
            _ => Err(VmError::BadType {
                expected: String::from_str("float"),
                found: String::from_str(self.kind_name()),
            }),
        }
    }
}

} // verus!
