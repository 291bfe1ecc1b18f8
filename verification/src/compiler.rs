use vstd::prelude::*;

use crate::bytecode::ByteCode;
use crate::parser::{BlockSeq, Decl, Expr};
use crate::value::Value;

verus! {

/// What compilation reports when a program cannot be lowered.
#[derive(Debug, PartialEq)]
pub struct CompileError {
    pub msg: String,
}

impl CompileError {
    pub fn new(err: &str) -> (r: CompileError)
        ensures
            r.msg@ == err@,
    {
        CompileError { msg: String::from_str(err) }
    }

    /// The message, for reporting.
    pub fn message(&self) -> (r: &str)
        ensures
            r@ == self.msg@,
    {
        self.msg.as_str()
    }

    /// The displayed form: the fixed marker, then the message.
    pub fn render(&self) -> (r: String)
        ensures
            r@ == "[CompileError]: "@ + self.msg@,
    {
        let mut s = String::from_str("[CompileError]: ");
        s.append(self.msg.as_str());
        s
    }
}

/// The expressions the compiler can lower today: the literals. (Operators
/// and blocks are still ahead of it.)
pub open spec fn expr_compilable(e: Expr) -> bool {
    match e {
        Expr::Integer(_) => true,
        Expr::Float(_) => true,
        Expr::Bool(_) => true,
        _ => false,
    }
}

/// A declaration the compiler can lower: an expression statement of a
/// literal.
pub open spec fn decl_compilable(d: Decl) -> bool {
    match d {
        Decl::ExprStmt(e) => expr_compilable(e),
        _ => false,
    }
}

/// A program the compiler can lower: literal statements with an optional
/// trailing literal expression.
pub open spec fn program_compilable(b: BlockSeq) -> bool {
    &&& forall|i: int| 0 <= i < b.decls@.len() ==> decl_compilable(#[trigger] b.decls@[i])
    &&& match b.last_expr {
        Some(e) => expr_compilable(*e),
        None => true,
    }
}

/// The load-constant instruction a literal lowers to (meaningless for the
/// expressions the compiler rejects).
pub open spec fn ldc_of(e: Expr) -> ByteCode {
    match e {
        Expr::Integer(v) => ByteCode::LDC(Value::Int(v)),
        Expr::Float(t) => ByteCode::LDC(Value::Float(t)),
        Expr::Bool(b) => ByteCode::LDC(Value::Bool(b)),
        _ => arbitrary(),
    }
}

/// The code a sequence of statements lowers to: each statement's value is
/// loaded and then popped, so only the trailing expression's value can
/// remain observable.
pub open spec fn compiled_decls(ds: Seq<Decl>) -> Seq<ByteCode>
    decreases ds.len(),
{
    if ds.len() == 0 {
        Seq::empty()
    } else {
        seq![ldc_of(ds[0]->ExprStmt_0), ByteCode::POP] + compiled_decls(ds.drop_first())
    }
}

/// The code a whole program lowers to: its statements, the trailing
/// expression if any, and the halt instruction.
pub open spec fn compiled_program(b: BlockSeq) -> Seq<ByteCode> {
    compiled_decls(b.decls@) + (match b.last_expr {
        Some(e) => seq![ldc_of(*e)],
        None => Seq::empty(),
    }) + seq![ByteCode::DONE]
}

/// The compiler: holds the parsed program until `compile` lowers it into a
/// linear bytecode program.
pub struct Compiler {
    pub bytecode: Vec<ByteCode>,
    pub program: BlockSeq,
}

impl Compiler {
    pub fn new(program: BlockSeq) -> (c: Compiler)
        ensures
            c.program == program,
            c.bytecode@ =~= Seq::<ByteCode>::empty(),
    {
        Compiler { bytecode: Vec::new(), program }
    }

    /// Lower one literal expression to its load-constant instruction.
    pub fn compile_expr(expr: &Expr) -> (res: Result<ByteCode, CompileError>)
        requires
            expr_compilable(*expr),
        ensures
            res == Ok::<ByteCode, CompileError>(ldc_of(*expr)),
    {
        match expr {
            Expr::Integer(val) => Ok(ByteCode::ldc(Value::Int(*val))),
            Expr::Float(val) => Ok(ByteCode::ldc(Value::Float(val.clone()))),
            Expr::Bool(val) => Ok(ByteCode::ldc(Value::Bool(*val))),
            _ => Err(CompileError::new("not yet implemented")),
        }
    }

    /// Lower one declaration.
    fn compile_decl(decl: &Decl) -> (res: Result<ByteCode, CompileError>)
        requires
            decl_compilable(*decl),
        ensures
            *decl matches Decl::ExprStmt(e) && res == Ok::<ByteCode, CompileError>(ldc_of(e)),
    {
        match decl {
            Decl::ExprStmt(expr) => Self::compile_expr(expr),
            _ => Err(CompileError::new("not yet implemented")),
        }
    }

    /// Lower the whole program: for each statement its load and a pop, then
    /// the trailing expression's load if there is one, then the halt
    /// instruction.
    #[verifier::loop_isolation(false)]
    pub fn compile(self) -> (res: Result<Vec<ByteCode>, CompileError>)
        requires
            program_compilable(self.program),
        ensures
            res matches Ok(code) && code@ == compiled_program(self.program),
    {
        let Compiler { bytecode: _, program } = self;
        let ghost p = program;
        let mut bytecode: Vec<ByteCode> = Vec::new();
        let BlockSeq { decls, last_expr } = program;
        let n = decls.len();
        let mut i: usize = 0;
        while i < n
            invariant
                n == decls@.len(),
                i <= n,
                bytecode@ =~= compiled_decls(decls@.take(i as int)),
            decreases n - i,
        {
            let code = match Self::compile_decl(&decls[i]) {
                Ok(c) => c,
                Err(e) => {
                    return Err(e);
                },
            };
            bytecode.push(code);
            bytecode.push(ByteCode::POP);
            proof {
                lemma_compiled_decls_take(decls@, i as int);
            }
            i += 1;
        }
        proof {
            assert(decls@.take(n as int) =~= decls@);
        }
        match &last_expr {
            Some(expr) => {
                let code = match Self::compile_expr(&**expr) {
                    Ok(c) => c,
                    Err(e) => {
                        return Err(e);
                    },
                };
                bytecode.push(code);
            },
            None => {},
        }
        bytecode.push(ByteCode::DONE);
        proof {
            assert(bytecode@ =~= compiled_program(p));
        }
        Ok(bytecode)
    }
}

/// Lowering one more statement appends its two instructions.
proof fn lemma_compiled_decls_take(ds: Seq<Decl>, i: int)
    requires
        0 <= i < ds.len(),
        forall|j: int| 0 <= j < ds.len() ==> decl_compilable(#[trigger] ds[j]),
    ensures
        compiled_decls(ds.take(i + 1)) =~= compiled_decls(ds.take(i)) + seq![
            ldc_of(ds[i]->ExprStmt_0),
            ByteCode::POP,
        ],
    decreases i,
{
    if i == 0 {
        assert(ds.take(0) =~= Seq::<Decl>::empty());
        assert(compiled_decls(ds.take(0)) =~= Seq::<ByteCode>::empty());
        assert(ds.take(1).len() == 1);
        assert(ds.take(1)[0] == ds[0]);
        assert(ds.take(1).drop_first() =~= ds.take(0));
        assert(compiled_decls(ds.take(1)) =~= seq![ldc_of(ds[0]->ExprStmt_0), ByteCode::POP]
            + compiled_decls(ds.take(0)));
    } else {
        assert forall|j: int| 0 <= j < ds.drop_first().len() implies decl_compilable(
            #[trigger] ds.drop_first()[j],
        ) by {
            assert(decl_compilable(ds[j + 1]));
        }
        lemma_compiled_decls_take(ds.drop_first(), i - 1);
        assert(ds.take(i + 1)[0] == ds[0]);
        assert(ds.take(i + 1).drop_first() =~= ds.drop_first().take(i));
        assert(ds.take(i)[0] == ds[0]);
        assert(ds.take(i).drop_first() =~= ds.drop_first().take(i - 1));
        assert(ds.drop_first()[i - 1] == ds[i]);
        assert(compiled_decls(ds.take(i + 1)) =~= seq![ldc_of(ds[0]->ExprStmt_0), ByteCode::POP]
            + compiled_decls(ds.drop_first().take(i)));
        assert(compiled_decls(ds.take(i)) =~= seq![ldc_of(ds[0]->ExprStmt_0), ByteCode::POP]
            + compiled_decls(ds.drop_first().take(i - 1)));
    }
}

} // verus!
