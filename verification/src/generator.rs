use vstd::prelude::*;

use crate::inst::Inst;
use crate::parser::{parse_expr, sp_expr_at, BiOper, Error, Expr, ExprModel, ParseOut};
use crate::tokenizer::{stream_from, LexSt, Token, TokenModel, Tokenizer};
use crate::value::Value;
use crate::vm::{VmState, VM};

verus! {

/// The instruction that performs a binary operator.
pub open spec fn spec_bi_oper_inst(oper: BiOper) -> Inst {
    match oper {
        BiOper::Add => Inst::Add,
        BiOper::Sub => Inst::Sub,
        BiOper::Mul => Inst::Mul,
        BiOper::Div => Inst::Div,
        BiOper::Mod => Inst::Mod,
    }
}

/// Map a binary operator to the instruction that performs it.
pub fn bi_oper_inst(oper: BiOper) -> (r: Inst)
    ensures
        r == spec_bi_oper_inst(oper),
{
    match oper {
        BiOper::Add => Inst::Add,
        BiOper::Sub => Inst::Sub,
        BiOper::Mul => Inst::Mul,
        BiOper::Div => Inst::Div,
        BiOper::Mod => Inst::Mod,
    }
}

/// The names of a compile-time scope, innermost binding last; a name's slot
/// is its position.
pub open spec fn scope_model(sc: Seq<String>) -> Seq<Seq<char>> {
    sc.map_values(|s: String| s@)
}

/// The slot bound to a name: the position of its innermost binding, so an
/// inner binding shadows an outer one of the same name.
pub open spec fn lookup_slot(sc: Seq<Seq<char>>, name: Seq<char>) -> Option<nat>
    decreases sc.len(),
{
    if sc.len() == 0 {
        None
    } else if sc.last() == name {
        Some((sc.len() - 1) as nat)
    } else {
        lookup_slot(sc.drop_last(), name)
    }
}

/// The outcome of code generation: the emitted instructions and interned
/// constants, or the name of an unbound variable reference.
pub ghost enum GenOut {
    Emitted(Seq<Inst>, Seq<Value>),
    Unresolved(Seq<char>),
}

/// The code and constants an expression compiles to, under a scope and with
/// the constant pool already `cbase` cells long. Operands are generated left
/// then right in post order; a `let` brackets its body's code between
/// `Var` and `EndVar`; a variable reference encodes its relative depth.
pub open spec fn gen_spec(e: ExprModel, sc: Seq<Seq<char>>, cbase: nat) -> GenOut
    decreases e,
{
    match e {
        ExprModel::IntLiteral(i) => GenOut::Emitted(
            seq![Inst::GetConst(cbase as usize)],
            seq![Value::Int(i)],
        ),
        ExprModel::BiOper(op, b) => match gen_spec(b.0, sc, cbase) {
            GenOut::Emitted(li, lc) => match gen_spec(b.1, sc, cbase + lc.len()) {
                GenOut::Emitted(ri, rc) => GenOut::Emitted(
                    li + ri + seq![spec_bi_oper_inst(op)],
                    lc + rc,
                ),
                u => u,
            },
            u => u,
        },
        ExprModel::Var(n) => match lookup_slot(sc, n) {
            Some(i) => GenOut::Emitted(
                seq![Inst::GetVar((sc.len() - 1 - i) as usize)],
                Seq::empty(),
            ),
            None => GenOut::Unresolved(n),
        },
        ExprModel::Let(n, b) => match gen_spec(b.0, sc, cbase) {
            GenOut::Emitted(bi, bc) => match gen_spec(b.1, sc.push(n), cbase + bc.len()) {
                GenOut::Emitted(oi, oc) => GenOut::Emitted(
                    bi + seq![Inst::Var] + oi + seq![Inst::EndVar],
                    bc + oc,
                ),
                u => u,
            },
            u => u,
        },
    }
}

/// A compile-time semantic failure: a variable reference with no binding in
/// scope.
#[derive(Debug)]
pub enum GenError {
    UnresolvedVariable { name: String },
}

impl View for GenError {
    type V = Seq<char>;

    open spec fn view(&self) -> Seq<char> {
        match self {
            GenError::UnresolvedVariable { name } => name@,
        }
    }
}

/// The innermost slot bound to `name`, if any.
fn lookup(scope: &Vec<String>, name: &String) -> (r: Option<usize>)
    ensures
        (match r {
            Some(i) => i < scope@.len() && lookup_slot(scope_model(scope@), name@) == Some(
                i as nat,
            ),
            None => lookup_slot(scope_model(scope@), name@) is None,
        }),
{
    let ghost full = scope_model(scope@);
    let mut j = scope.len();
    proof {
        assert(full.take(j as int) =~= full);
    }
    while j > 0
        invariant
            j <= scope.len(),
            full == scope_model(scope@),
            lookup_slot(full, name@) == lookup_slot(full.take(j as int), name@),
        decreases j,
    {
        if scope[j - 1] == *name {
            proof {
                assert(full.take(j as int).last() == name@);
            }
            return Some(j - 1);
        }
        proof {
            assert(full.take(j as int).drop_last() =~= full.take(j as int - 1));
        }
        j = j - 1;
    }
    None
}

/// Generate code for one expression under the given scope, appending to the
/// machine's program and constant pool. The scope is left as it was found;
/// an unbound variable reference is a compile error, never a crash.
pub fn generate_inner(vm: &mut VM, expr: &Expr, scope: &mut Vec<String>) -> (r: Result<
    (),
    GenError,
>)
    ensures
        final(scope)@ == old(scope)@,
        (match gen_spec(expr@, scope_model(old(scope)@), old(vm)@.consts.len()) {
            GenOut::Emitted(insts, consts) => r is Ok && final(vm)@ == (VmState {
                insts: old(vm)@.insts + insts,
                consts: old(vm)@.consts + consts,
                ..old(vm)@
            }),
            GenOut::Unresolved(n) => (match r {
                Err(ge) => ge@ == n,
                Ok(_) => false,
            }),
        }),
    decreases expr,
{
    match expr {
        Expr::IntLiteral(i) => {
            vm.emit_constant_load(Value::from_int(*i));
            proof {
                assert(final(vm)@.insts =~= old(vm)@.insts + seq![
                    Inst::GetConst(old(vm)@.consts.len() as usize),
                ]);
                assert(final(vm)@.consts =~= old(vm)@.consts + seq![Value::Int(*i)]);
            }
            Ok(())
        },
        Expr::BiOper(oper, b) => {
            let operation_inst = bi_oper_inst(*oper);
            let ghost sc = scope_model(scope@);
            let ghost cbase = vm@.consts.len();
            match generate_inner(vm, &b.0, scope) {
                Ok(()) => {},
                Err(e) => {
                    return Err(e);
                },
            }
            match generate_inner(vm, &b.1, scope) {
                Ok(()) => {},
                Err(e) => {
                    return Err(e);
                },
            }
            vm.emit(operation_inst);
            proof {
                let li = gen_spec(b.0@, sc, cbase)->Emitted_0;
                let lc = gen_spec(b.0@, sc, cbase)->Emitted_1;
                let ri = gen_spec(b.1@, sc, cbase + lc.len())->Emitted_0;
                let rc = gen_spec(b.1@, sc, cbase + lc.len())->Emitted_1;
                assert(final(vm)@.insts =~= old(vm)@.insts + (li + ri + seq![
                    spec_bi_oper_inst(*oper),
                ]));
                assert(final(vm)@.consts =~= old(vm)@.consts + (lc + rc));
            }
            Ok(())
        },
        Expr::Var(name) => {
            match lookup(scope, name) {
                Some(slot) => {
                    let depth = scope.len() - 1 - slot;
                    vm.emit(Inst::GetVar(depth));
                    proof {
                        assert(final(vm)@.insts =~= old(vm)@.insts + seq![Inst::GetVar(depth)]);
                        assert(final(vm)@.consts =~= old(vm)@.consts + Seq::<Value>::empty());
                    }
                    Ok(())
                },
                None => Err(GenError::UnresolvedVariable { name: name.clone() }),
            }
        },
        Expr::Let(name, b) => {
            let ghost sc = scope_model(scope@);
            let ghost cbase = vm@.consts.len();
            match generate_inner(vm, &b.0, scope) {
                Ok(()) => {},
                Err(e) => {
                    return Err(e);
                },
            }
            vm.emit(Inst::Var);
            scope.push(name.clone());
            proof {
                assert(scope_model(scope@) =~= sc.push(name@));
            }
            let body_result = generate_inner(vm, &b.1, scope);
            scope.pop();
            proof {
                assert(scope@ =~= old(scope)@);
            }
            match body_result {
                Ok(()) => {},
                Err(e) => {
                    return Err(e);
                },
            }
            vm.emit(Inst::EndVar);
            proof {
                let bi = gen_spec(b.0@, sc, cbase)->Emitted_0;
                let bc = gen_spec(b.0@, sc, cbase)->Emitted_1;
                let oi = gen_spec(b.1@, sc.push(name@), cbase + bc.len())->Emitted_0;
                let oc = gen_spec(b.1@, sc.push(name@), cbase + bc.len())->Emitted_1;
                assert(final(vm)@.insts =~= old(vm)@.insts + (bi + seq![Inst::Var] + oi + seq![
                    Inst::EndVar,
                ]));
                assert(final(vm)@.consts =~= old(vm)@.consts + (bc + oc));
            }
            Ok(())
        },
    }
}

/// Generate code for a whole expression into a machine, starting from an
/// empty scope.
pub fn generate(vm: &mut VM, expr: &Expr) -> (r: Result<(), GenError>)
    ensures
        (match gen_spec(expr@, Seq::empty(), old(vm)@.consts.len()) {
            GenOut::Emitted(insts, consts) => r is Ok && final(vm)@ == (VmState {
                insts: old(vm)@.insts + insts,
                consts: old(vm)@.consts + consts,
                ..old(vm)@
            }),
            GenOut::Unresolved(n) => (match r {
                Err(ge) => ge@ == n,
                Ok(_) => false,
            }),
        }),
{
    let mut scope: Vec<String> = Vec::new();
    proof {
        assert(scope_model(scope@) =~= Seq::<Seq<char>>::empty());
    }
    generate_inner(vm, expr, &mut scope)
}

/// A failure of the whole compilation pipeline: a syntax error with its
/// expected-versus-actual diagnostic, or an unbound variable reference.
#[derive(Debug)]
pub enum CompileError {
    UnexpectedToken { expected: &'static str, actual: Token },
    UnresolvedVariable { name: String },
}

/// The mathematical model of a compilation failure.
pub ghost enum CompileErrorModel {
    UnexpectedToken { expected: Seq<char>, actual: TokenModel },
    UnresolvedVariable { name: Seq<char> },
}

impl View for CompileError {
    type V = CompileErrorModel;

    open spec fn view(&self) -> CompileErrorModel {
        match self {
            CompileError::UnexpectedToken { expected, actual } => CompileErrorModel::UnexpectedToken {
                expected: expected@,
                actual: actual@,
            },
            CompileError::UnresolvedVariable { name } => CompileErrorModel::UnresolvedVariable {
                name: name@,
            },
        }
    }
}

/// Compile a source text: tokenize and parse it, then generate code for the
/// parsed expression into a fresh machine, ready to run.
pub fn compile(source: Vec<char>) -> (r: Result<VM, CompileError>)
    requires
        source@.len() <= u32::MAX,
    ensures
        ({
            let ts = stream_from(LexSt { src: source@, pos: 0, line: 0, col: 0 });
            match sp_expr_at(ts) {
                ParseOut::Parsed(e, _) => (match gen_spec(e, Seq::empty(), 0) {
                    GenOut::Emitted(insts, consts) => (match r {
                        Ok(vm) => vm@.insts == insts && vm@.consts == consts && vm@.lp == 0
                            && vm@.stack.len() == 0 && vm@.vars.len() == 0 && vm@.heap.len() == 0,
                        Err(_) => false,
                    }),
                    GenOut::Unresolved(n) => (match r {
                        Err(ce) => ce@ == (CompileErrorModel::UnresolvedVariable { name: n }),
                        Ok(_) => false,
                    }),
                }),
                ParseOut::Failed(exp, act) => (match r {
                    Err(ce) => ce@ == (CompileErrorModel::UnexpectedToken {
                        expected: exp,
                        actual: act,
                    }),
                    Ok(_) => false,
                }),
                ParseOut::Spent => false,
            }
        }),
{
    let mut tokenizer = Tokenizer::from_source(source);
    let expr = match parse_expr(&mut tokenizer) {
        Ok(e) => e,
        Err(Error::UnexpectedToken { expected, actual }) => {
            return Err(CompileError::UnexpectedToken { expected, actual });
        },
    };
    let mut vm = VM::default();
    match generate(&mut vm, &expr) {
        Ok(()) => {
            proof {
                assert(vm@.insts =~= Seq::<Inst>::empty() + vm@.insts);
                let e = sp_expr_at(
                    stream_from(LexSt { src: source@, pos: 0, line: 0, col: 0 }),
                )->Parsed_0;
                match gen_spec(e, Seq::<Seq<char>>::empty(), 0) {
                    GenOut::Emitted(insts, consts) => {
                        assert(Seq::<Inst>::empty() + insts =~= insts);
                        assert(Seq::<Value>::empty() + consts =~= consts);
                    },
                    GenOut::Unresolved(_) => {},
                }
            }
            Ok(vm)
        },
        Err(GenError::UnresolvedVariable { name }) => {
            Err(CompileError::UnresolvedVariable { name })
        },
    }
}

} // verus!
