use vstd::prelude::*;

use crate::generator::{gen_spec, lookup_slot, spec_bi_oper_inst, GenOut};
use crate::inst::Inst;
use crate::parser::{
    atom_fuel, expr_fuel, lemma_more_fuel, sp_atom, sp_expr_at, sp_more_at, spec_add_sub,
    stream_wf, BiOper, ExprModel, ParseOut,
};
use crate::tokenizer::{TokenKindModel, TokenModel};
use crate::value::Value;
use crate::vm::{apply_op, run_spec, step_spec, steps_n, VmErr, VmState};

verus! {

/// The integers a sequence of cells holds, reading every cell under the
/// integer interpretation (zero where it is of another kind).
pub open spec fn int_vals(vs: Seq<Value>) -> Seq<i32> {
    vs.map_values(
        |v: Value|
            match v {
                Value::Int(i) => i,
                _ => 0,
            },
    )
}

/// Whether every cell of a sequence holds an integer.
pub open spec fn all_ints(vs: Seq<Value>) -> bool {
    forall|i: int| 0 <= i < vs.len() ==> (#[trigger] vs[i]) is Int
}

/// The deepest nesting of live `let` bindings an expression can reach.
pub open spec fn let_depth(e: ExprModel) -> nat
    decreases e,
{
    match e {
        ExprModel::IntLiteral(_) => 0,
        ExprModel::BiOper(_, b) => if let_depth(b.0) >= let_depth(b.1) {
            let_depth(b.0)
        } else {
            let_depth(b.1)
        },
        ExprModel::Var(_) => 0,
        ExprModel::Let(_, b) => if let_depth(b.0) >= 1 + let_depth(b.1) {
            let_depth(b.0)
        } else {
            1 + let_depth(b.1)
        },
    }
}

/// The value of an expression under an environment of live bindings, the
/// names slot-aligned with their values, innermost binding last. `None`
/// exactly when a variable reference is unbound or a division by zero is
/// reached; arithmetic wraps as the machine's instructions do.
pub open spec fn eval_expr(e: ExprModel, names: Seq<Seq<char>>, vals: Seq<i32>) -> Option<i32>
    recommends
        names.len() == vals.len(),
    decreases e,
{
    match e {
        ExprModel::IntLiteral(i) => Some(i),
        ExprModel::BiOper(op, b) => match (eval_expr(b.0, names, vals), eval_expr(
            b.1,
            names,
            vals,
        )) {
            (Some(l), Some(r)) => apply_op(spec_bi_oper_inst(op), l, r),
            _ => None,
        },
        ExprModel::Var(n) => match lookup_slot(names, n) {
            Some(i) => if i < vals.len() {
                Some(vals[i as int])
            } else {
                None
            },
            None => None,
        },
        ExprModel::Let(n, b) => match eval_expr(b.0, names, vals) {
            Some(v) => eval_expr(b.1, names.push(n), vals.push(v)),
            None => None,
        },
    }
}

/// An element of a slice of a sequence is the corresponding element of the
/// sequence.
proof fn lemma_subrange_index<A>(s: Seq<A>, l: int, r: int, i: int)
    requires
        0 <= l <= r <= s.len(),
        0 <= i < r - l,
    ensures
        s.subrange(l, r)[i] == s[l + i],
{
}

/// A slice known to be a concatenation splits into its two parts.
proof fn lemma_concat_parts<A>(s: Seq<A>, l: int, a: Seq<A>, b: Seq<A>)
    requires
        0 <= l,
        l + a.len() + b.len() <= s.len(),
        s.subrange(l, l + a.len() + b.len() as int) == a + b,
    ensures
        s.subrange(l, l + a.len() as int) == a,
        s.subrange(l + a.len() as int, l + a.len() + b.len() as int) == b,
{
    let whole = s.subrange(l, l + a.len() + b.len() as int);
    assert forall|k: int| 0 <= k < a.len() implies s.subrange(l, l + a.len() as int)[k]
        == a[k] by {
        lemma_subrange_index(s, l, l + a.len() as int, k);
        lemma_subrange_index(s, l, l + a.len() + b.len() as int, k);
        assert(whole[k] == (a + b)[k]);
    }
    assert(s.subrange(l, l + a.len() as int) =~= a);
    assert forall|k: int| 0 <= k < b.len() implies s.subrange(
        l + a.len() as int,
        l + a.len() + b.len() as int,
    )[k] == b[k] by {
        lemma_subrange_index(s, l + a.len() as int, l + a.len() + b.len() as int, k);
        lemma_subrange_index(s, l, l + a.len() + b.len() as int, a.len() + k);
        assert(whole[a.len() + k] == (a + b)[a.len() + k]);
    }
    assert(s.subrange(l + a.len() as int, l + a.len() + b.len() as int) =~= b);
}

/// Running to completion factors through any successful prefix of steps.
pub proof fn lemma_run_spec_steps(st: VmState, n: nat)
    requires
        steps_n(st, n) is Ok,
        st.lp + n <= st.insts.len(),
    ensures
        run_spec(st) == run_spec(steps_n(st, n)->Ok_0),
    decreases n,
{
    if n > 0 {
        crate::vm::lemma_step_shape(st);
        match step_spec(st) {
            Ok(s2) => {
                lemma_run_spec_steps(s2, (n - 1) as nat);
            },
            Err(_) => {},
        }
    }
}

/// A name that resolves does so to a slot inside the scope.
pub proof fn lemma_lookup_slot_in_range(names: Seq<Seq<char>>, n: Seq<char>)
    requires
        lookup_slot(names, n) is Some,
    ensures
        lookup_slot(names, n)->0 < names.len(),
    decreases names.len(),
{
    if names.len() > 0 && !(names.last() == n) {
        lemma_lookup_slot_in_range(names.drop_last(), n);
    }
}

/// One successful step is a one-step run.
proof fn lemma_steps_n_one(m: VmState, m2: VmState)
    requires
        step_spec(m) == Ok::<VmState, VmErr>(m2),
    ensures
        steps_n(m, 1) == Ok::<VmState, VmErr>(m2),
{
    assert(steps_n(m2, 0) == Ok::<VmState, VmErr>(m2));
}

/// Chain a left-operand run, a right-operand run and the final operator step
/// into one step count.
proof fn lemma_steps_n_chain(st: VmState, m1: VmState, m2: VmState, m3: VmState, a: nat, b: nat)
    requires
        steps_n(st, a) == Ok::<VmState, VmErr>(m1),
        steps_n(m1, b) == Ok::<VmState, VmErr>(m2),
        step_spec(m2) == Ok::<VmState, VmErr>(m3),
    ensures
        steps_n(st, a + b + 1) == Ok::<VmState, VmErr>(m3),
{
    lemma_steps_n_one(m2, m3);
    crate::vm::lemma_steps_n_add(m1, b, 1);
    crate::vm::lemma_steps_n_add(st, a, b + 1);
}

/// Chain a binding's run, the `Var` step, the body's run and the `EndVar`
/// step into one step count.
proof fn lemma_steps_n_let(
    st: VmState,
    m1: VmState,
    m2: VmState,
    m3: VmState,
    m4: VmState,
    a: nat,
    b: nat,
)
    requires
        steps_n(st, a) == Ok::<VmState, VmErr>(m1),
        step_spec(m1) == Ok::<VmState, VmErr>(m2),
        steps_n(m2, b) == Ok::<VmState, VmErr>(m3),
        step_spec(m3) == Ok::<VmState, VmErr>(m4),
    ensures
        steps_n(st, a + 1 + b + 1) == Ok::<VmState, VmErr>(m4),
{
    lemma_steps_n_one(m3, m4);
    crate::vm::lemma_steps_n_add(m2, b, 1);
    lemma_steps_n_one(m1, m2);
    crate::vm::lemma_steps_n_add(m1, 1, b + 1);
    crate::vm::lemma_steps_n_add(st, a, 1 + b + 1);
}

/// Code generation is correct: if an expression compiles under a scope whose
/// names are slot-aligned with the machine's variable stack, its code stands
/// in the program at the current pointer, its constants stand in the pool
/// where they were interned, and its evaluation is defined, then executing
/// exactly its instructions pushes exactly its value onto the operand stack
/// and leaves the variable stack as it was.
pub proof fn lemma_gen_correct(e: ExprModel, names: Seq<Seq<char>>, st: VmState, cbase: nat)
    requires
        gen_spec(e, names, cbase) is Emitted,
        names.len() == st.vars.len(),
        all_ints(st.vars),
        eval_expr(e, names, int_vals(st.vars)) is Some,
        st.consts.len() <= usize::MAX,
        st.vars.len() + let_depth(e) <= usize::MAX,
        st.lp + gen_spec(e, names, cbase)->Emitted_0.len() <= st.insts.len(),
        st.insts.subrange(
            st.lp as int,
            st.lp + gen_spec(e, names, cbase)->Emitted_0.len() as int,
        ) == gen_spec(e, names, cbase)->Emitted_0,
        cbase + gen_spec(e, names, cbase)->Emitted_1.len() <= st.consts.len(),
        st.consts.subrange(
            cbase as int,
            cbase + gen_spec(e, names, cbase)->Emitted_1.len() as int,
        ) == gen_spec(e, names, cbase)->Emitted_1,
    ensures
        steps_n(st, gen_spec(e, names, cbase)->Emitted_0.len()) == Ok::<VmState, VmErr>(
            VmState {
                lp: st.lp + gen_spec(e, names, cbase)->Emitted_0.len(),
                stack: st.stack.push(Value::Int(eval_expr(e, names, int_vals(st.vars))->0)),
                ..st
            },
        ),
    decreases e,
{
    let insts = gen_spec(e, names, cbase)->Emitted_0;
    let consts = gen_spec(e, names, cbase)->Emitted_1;
    let v = eval_expr(e, names, int_vals(st.vars))->0;
    match e {
        ExprModel::IntLiteral(i) => {
            lemma_subrange_index(st.insts, st.lp as int, st.lp + 1 as int, 0);
            assert(st.insts[st.lp as int] == Inst::GetConst(cbase as usize));
            lemma_subrange_index(st.consts, cbase as int, cbase + 1 as int, 0);
            assert(st.consts[cbase as int] == Value::Int(i));
            let m = VmState { lp: st.lp + 1, stack: st.stack.push(Value::Int(i)), ..st };
            assert(step_spec(st) == Ok::<VmState, VmErr>(m));
            lemma_steps_n_one(st, m);
        },
        ExprModel::BiOper(op, b) => {
            let li = gen_spec(b.0, names, cbase)->Emitted_0;
            let lc = gen_spec(b.0, names, cbase)->Emitted_1;
            let ri = gen_spec(b.1, names, cbase + lc.len())->Emitted_0;
            let rc = gen_spec(b.1, names, cbase + lc.len())->Emitted_1;
            let lv = eval_expr(b.0, names, int_vals(st.vars))->0;
            let rv = eval_expr(b.1, names, int_vals(st.vars))->0;
            let opinst = spec_bi_oper_inst(op);
            assert(insts == li + (ri + seq![opinst])) by {
                assert(li + ri + seq![opinst] =~= li + (ri + seq![opinst]));
            }
            lemma_concat_parts(st.insts, st.lp as int, li, ri + seq![opinst]);
            lemma_concat_parts(st.insts, st.lp + li.len() as int, ri, seq![opinst]);
            lemma_concat_parts(st.consts, cbase as int, lc, rc);
            lemma_gen_correct(b.0, names, st, cbase);
            let m1 = VmState { lp: st.lp + li.len(), stack: st.stack.push(Value::Int(lv)), ..st };
            lemma_gen_correct(b.1, names, m1, cbase + lc.len());
            let m2 = VmState { lp: m1.lp + ri.len(), stack: m1.stack.push(Value::Int(rv)), ..m1 };
            lemma_subrange_index(
                st.insts,
                st.lp + li.len() + ri.len() as int,
                st.lp + li.len() + ri.len() + 1 as int,
                0,
            );
            assert(st.insts[m2.lp as int] == opinst);
            assert(m2.stack[m2.stack.len() - 2] == Value::Int(lv));
            assert(m2.stack[m2.stack.len() - 1] == Value::Int(rv));
            assert(apply_op(opinst, lv, rv) == Some(v));
            let m3 = VmState { lp: m2.lp + 1, stack: st.stack.push(Value::Int(v)), ..st };
            assert(m2.stack.drop_last().drop_last().push(Value::Int(v)) =~= st.stack.push(
                Value::Int(v),
            ));
            assert(step_spec(m2) == Ok::<VmState, VmErr>(m3));
            lemma_steps_n_chain(st, m1, m2, m3, li.len(), ri.len());
            assert(insts.len() == li.len() + ri.len() + 1);
        },
        ExprModel::Var(n) => {
            let i = lookup_slot(names, n)->0;
            lemma_lookup_slot_in_range(names, n);
            let d = (names.len() - 1 - i) as nat;
            lemma_subrange_index(st.insts, st.lp as int, st.lp + 1 as int, 0);
            assert(st.insts[st.lp as int] == Inst::GetVar(d as usize));
            assert(st.vars[i as int] is Int);
            assert(st.vars[i as int] == Value::Int(v));
            let m = VmState { lp: st.lp + 1, stack: st.stack.push(Value::Int(v)), ..st };
            assert(step_spec(st) == Ok::<VmState, VmErr>(m));
            lemma_steps_n_one(st, m);
        },
        ExprModel::Let(n, b) => {
            let bi = gen_spec(b.0, names, cbase)->Emitted_0;
            let bc = gen_spec(b.0, names, cbase)->Emitted_1;
            let oi = gen_spec(b.1, names.push(n), cbase + bc.len())->Emitted_0;
            let oc = gen_spec(b.1, names.push(n), cbase + bc.len())->Emitted_1;
            let bv = eval_expr(b.0, names, int_vals(st.vars))->0;
            assert(insts == bi + (seq![Inst::Var] + (oi + seq![Inst::EndVar]))) by {
                assert(bi + seq![Inst::Var] + oi + seq![Inst::EndVar] =~= bi + (seq![Inst::Var] + (
                oi + seq![Inst::EndVar])));
            }
            lemma_concat_parts(
                st.insts,
                st.lp as int,
                bi,
                seq![Inst::Var] + (oi + seq![Inst::EndVar]),
            );
            lemma_concat_parts(
                st.insts,
                st.lp + bi.len() as int,
                seq![Inst::Var],
                oi + seq![Inst::EndVar],
            );
            lemma_concat_parts(st.insts, st.lp + bi.len() + 1 as int, oi, seq![Inst::EndVar]);
            lemma_concat_parts(st.consts, cbase as int, bc, oc);
            lemma_gen_correct(b.0, names, st, cbase);
            let m1 = VmState { lp: st.lp + bi.len(), stack: st.stack.push(Value::Int(bv)), ..st };
            lemma_subrange_index(st.insts, st.lp + bi.len() as int, st.lp + bi.len() + 1 as int, 0);
            assert(st.insts[m1.lp as int] == Inst::Var);
            let m2 = VmState {
                lp: m1.lp + 1,
                stack: st.stack,
                vars: st.vars.push(Value::Int(bv)),
                ..st
            };
            assert(m1.stack.drop_last() =~= st.stack);
            assert(m1.stack.last() == Value::Int(bv));
            assert(step_spec(m1) == Ok::<VmState, VmErr>(m2));
            assert(int_vals(m2.vars) =~= int_vals(st.vars).push(bv));
            assert(all_ints(m2.vars));
            lemma_gen_correct(b.1, names.push(n), m2, cbase + bc.len());
            let m3 = VmState { lp: m2.lp + oi.len(), stack: st.stack.push(Value::Int(v)), ..m2 };
            lemma_subrange_index(
                st.insts,
                st.lp + bi.len() + 1 + oi.len() as int,
                st.lp + bi.len() + 1 + oi.len() + 1 as int,
                0,
            );
            assert(st.insts[m3.lp as int] == Inst::EndVar);
            let m4 = VmState { lp: m3.lp + 1, stack: st.stack.push(Value::Int(v)), ..st };
            assert(m3.vars.drop_last() =~= st.vars);
            assert(step_spec(m3) == Ok::<VmState, VmErr>(m4));
            lemma_steps_n_let(st, m1, m2, m3, m4, bi.len(), oi.len());
            assert(insts.len() == bi.len() + 1 + oi.len() + 1);
        },
    }
}

/// Law: a compiled program computes its expression. Loading the code and
/// constants of a closed expression whose evaluation is defined into a fresh
/// machine and running it to completion succeeds, yields an operand stack
/// holding exactly the expression's value — no intermediate result is left
/// behind — and ends with the variable stack exactly as empty as it began.
pub proof fn lemma_compiled_expr_runs(e: ExprModel, st: VmState)
    requires
        gen_spec(e, Seq::empty(), 0) is Emitted,
        eval_expr(e, Seq::empty(), Seq::empty()) is Some,
        st.lp == 0,
        st.stack =~= Seq::<Value>::empty(),
        st.vars =~= Seq::<Value>::empty(),
        st.insts == gen_spec(e, Seq::empty(), 0)->Emitted_0,
        st.consts == gen_spec(e, Seq::empty(), 0)->Emitted_1,
        st.consts.len() <= usize::MAX,
        let_depth(e) <= usize::MAX,
    ensures
        run_spec(st) == Ok::<Seq<Value>, VmErr>(
            seq![Value::Int(eval_expr(e, Seq::empty(), Seq::empty())->0)],
        ),
        steps_n(st, st.insts.len()) is Ok,
        steps_n(st, st.insts.len())->Ok_0.vars =~= Seq::<Value>::empty(),
{
    let v = eval_expr(e, Seq::empty(), Seq::empty())->0;
    assert(int_vals(st.vars) =~= Seq::<i32>::empty());
    assert(st.insts.subrange(0, st.insts.len() as int) =~= st.insts);
    assert(st.consts.subrange(0, st.consts.len() as int) =~= st.consts);
    lemma_gen_correct(e, Seq::empty(), st, 0);
    let m = steps_n(st, st.insts.len())->Ok_0;
    lemma_run_spec_steps(st, st.insts.len());
    assert(m.lp >= m.insts.len());
    assert(run_spec(m) == Ok::<Seq<Value>, VmErr>(m.stack));
    assert(m.stack =~= seq![Value::Int(v)]);
}

/// Whether every operator of a sequence is additive.
pub open spec fn add_sub_only(ops: Seq<BiOper>) -> bool {
    forall|k: int| 0 <= k < ops.len() ==> (#[trigger] ops[k]) == BiOper::Add || ops[k]
        == BiOper::Sub
}

/// The left-associative expression tree of a chain `v0 op1 v1 op2 v2 ...`.
pub open spec fn chain_expr(vals: Seq<i32>, ops: Seq<BiOper>) -> ExprModel
    recommends
        vals.len() == ops.len() + 1,
    decreases ops.len(),
{
    if ops.len() == 0 {
        ExprModel::IntLiteral(vals[0])
    } else {
        ExprModel::BiOper(
            ops.last(),
            Box::new(
                (
                    chain_expr(vals.drop_last(), ops.drop_last()),
                    ExprModel::IntLiteral(vals.last()),
                ),
            ),
        )
    }
}

/// The left-associative evaluation of a chain, with wrapping arithmetic.
pub open spec fn chain_eval(vals: Seq<i32>, ops: Seq<BiOper>) -> i32
    recommends
        vals.len() == ops.len() + 1,
    decreases ops.len(),
{
    if ops.len() == 0 {
        vals[0]
    } else {
        apply_op(
            spec_bi_oper_inst(ops.last()),
            chain_eval(vals.drop_last(), ops.drop_last()),
            vals.last(),
        )->0
    }
}

/// A chain expression is closed and free of `let`, its code generation
/// succeeds under any scope and base, and its evaluation is the chain's
/// left-associative fold.
pub proof fn lemma_chain_expr_facts(
    vals: Seq<i32>,
    ops: Seq<BiOper>,
    sc: Seq<Seq<char>>,
    cbase: nat,
    names: Seq<Seq<char>>,
    env: Seq<i32>,
)
    requires
        vals.len() == ops.len() + 1,
        add_sub_only(ops),
    ensures
        gen_spec(chain_expr(vals, ops), sc, cbase) is Emitted,
        let_depth(chain_expr(vals, ops)) == 0,
        eval_expr(chain_expr(vals, ops), names, env) == Some(chain_eval(vals, ops)),
    decreases ops.len(),
{
    if ops.len() > 0 {
        assert(add_sub_only(ops.drop_last())) by {
            assert(forall|k: int|
                0 <= k < ops.drop_last().len() ==> ops.drop_last()[k] == ops[k]);
        }
        lemma_chain_expr_facts(vals.drop_last(), ops.drop_last(), sc, cbase, names, env);
        let op = ops.last();
        assert(op == BiOper::Add || op == BiOper::Sub);
        let prefix = chain_expr(vals.drop_last(), ops.drop_last());
        let lit = ExprModel::IntLiteral(vals.last());
        let pair = Box::new((prefix, lit));
        assert(chain_expr(vals, ops) == ExprModel::BiOper(op, pair));
        assert(pair.0 == prefix && pair.1 == lit);
        let lc = gen_spec(prefix, sc, cbase)->Emitted_1;
        assert(gen_spec(lit, sc, cbase + lc.len()) is Emitted);
        assert(let_depth(lit) == 0);
        assert(let_depth(prefix) == 0);
        assert(let_depth(ExprModel::BiOper(op, pair)) == 0);
        let l = chain_eval(vals.drop_last(), ops.drop_last());
        assert(eval_expr(lit, names, env) == Some(vals.last()));
        assert(apply_op(spec_bi_oper_inst(op), l, vals.last()) is Some);
    }
}

/// A chain tail: alternating operator and integer tokens, then the
/// end-of-input token.
pub open spec fn is_chain_tail(ts: Seq<TokenModel>, vals: Seq<i32>, ops: Seq<BiOper>) -> bool {
    &&& vals.len() == ops.len()
    &&& ts.len() == 2 * ops.len() + 1
    &&& (forall|k: int|
        0 <= k < ops.len() ==> spec_add_sub(#[trigger] ts[2 * k].kind) == Some(ops[k]))
    &&& (forall|k: int|
        0 <= k < vals.len() ==> (#[trigger] ts[2 * k + 1].kind) == TokenKindModel::Int(vals[k]))
    &&& ts.last().kind is Eof
}

/// A whole chain: an integer token, then a chain tail.
pub open spec fn is_int_chain(ts: Seq<TokenModel>, vals: Seq<i32>, ops: Seq<BiOper>) -> bool {
    &&& vals.len() == ops.len() + 1
    &&& ts.len() >= 1
    &&& ts[0].kind == TokenKindModel::Int(vals[0])
    &&& is_chain_tail(ts.skip(1), vals.skip(1), ops)
}

/// The left fold of a chain tail onto an accumulated left operand.
pub open spec fn ext_chain(left: ExprModel, vals: Seq<i32>, ops: Seq<BiOper>) -> ExprModel
    recommends
        vals.len() == ops.len(),
    decreases ops.len(),
{
    if ops.len() == 0 {
        left
    } else {
        ext_chain(
            ExprModel::BiOper(ops[0], Box::new((left, ExprModel::IntLiteral(vals[0])))),
            vals.skip(1),
            ops.skip(1),
        )
    }
}

/// Folding from the left and building from the right agree.
proof fn lemma_ext_chain_push(left: ExprModel, vals: Seq<i32>, ops: Seq<BiOper>, v: i32, o: BiOper)
    requires
        vals.len() == ops.len(),
    ensures
        ext_chain(left, vals.push(v), ops.push(o)) == ExprModel::BiOper(
            o,
            Box::new((ext_chain(left, vals, ops), ExprModel::IntLiteral(v))),
        ),
    decreases ops.len(),
{
    if ops.len() == 0 {
        assert(ops.push(o)[0] == o);
        assert(vals.push(v)[0] == v);
        assert(vals.push(v).skip(1) =~= Seq::<i32>::empty());
        assert(ops.push(o).skip(1) =~= Seq::<BiOper>::empty());
        let folded = ExprModel::BiOper(o, Box::new((left, ExprModel::IntLiteral(v))));
        assert(ext_chain(folded, Seq::empty(), Seq::empty()) == folded);
        assert(ext_chain(left, vals, ops) == left);
    } else {
        let left2 = ExprModel::BiOper(
            ops[0],
            Box::new((left, ExprModel::IntLiteral(vals[0]))),
        );
        assert(vals.push(v).skip(1) =~= vals.skip(1).push(v));
        assert(ops.push(o).skip(1) =~= ops.skip(1).push(o));
        assert(ops.push(o)[0] == ops[0]);
        assert(vals.push(v)[0] == vals[0]);
        lemma_ext_chain_push(left2, vals.skip(1), ops.skip(1), v, o);
    }
}

/// A whole chain's tree is the tail folded onto its first literal.
proof fn lemma_chain_is_ext(vals: Seq<i32>, ops: Seq<BiOper>)
    requires
        vals.len() == ops.len() + 1,
    ensures
        chain_expr(vals, ops) == ext_chain(
            ExprModel::IntLiteral(vals[0]),
            vals.skip(1),
            ops,
        ),
    decreases ops.len(),
{
    if ops.len() == 0 {
    } else {
        lemma_chain_is_ext(vals.drop_last(), ops.drop_last());
        assert(vals.drop_last().skip(1) =~= vals.skip(1).drop_last());
        assert(vals.drop_last()[0] == vals[0]);
        lemma_ext_chain_push(
            ExprModel::IntLiteral(vals[0]),
            vals.skip(1).drop_last(),
            ops.drop_last(),
            vals.last(),
            ops.last(),
        );
        assert(vals.skip(1).drop_last().push(vals.last()) =~= vals.skip(1));
        assert(ops.drop_last().push(ops.last()) =~= ops);
    }
}

/// A chain tail is a well-formed token stream.
proof fn lemma_chain_tail_wf(ts: Seq<TokenModel>, vals: Seq<i32>, ops: Seq<BiOper>)
    requires
        is_chain_tail(ts, vals, ops),
    ensures
        stream_wf(ts),
{
    assert forall|i: int| 0 <= i < ts.len() - 1 implies !(#[trigger] ts[i].kind is Eof) by {
        if i % 2 == 0 {
            let k = i / 2;
            assert(ts[2 * k].kind == ts[i].kind);
            assert(spec_add_sub(ts[2 * k].kind) == Some(ops[k]));
        } else {
            let k = (i - 1) / 2;
            assert(ts[2 * k + 1].kind == ts[i].kind);
            assert(ts[2 * k + 1].kind == TokenKindModel::Int(vals[k]));
        }
    }
}

/// Parsing a chain tail folds every operator-literal pair onto the left
/// operand and stops exactly at the end-of-input token.
proof fn lemma_more_parses_chain(
    left: ExprModel,
    ts: Seq<TokenModel>,
    vals: Seq<i32>,
    ops: Seq<BiOper>,
)
    requires
        is_chain_tail(ts, vals, ops),
    ensures
        sp_more_at(left, ts) == ParseOut::Parsed(ext_chain(left, vals, ops), seq![ts.last()]),
    decreases ops.len(),
{
    lemma_chain_tail_wf(ts, vals, ops);
    if ops.len() == 0 {
        assert(ts =~= seq![ts.last()]);
        assert(spec_add_sub(ts[0].kind) is None);
    } else {
        assert(ts[2 * 0int] == ts[0int]);
        assert(spec_add_sub(ts[0].kind) == Some(ops[0]));
        assert(ts.skip(1)[0int] == ts[2 * 0int + 1]);
        assert(ts.skip(1)[0].kind == TokenKindModel::Int(vals[0]));
        crate::parser::lemma_stream_wf_skip(ts);
        let rest = ts.skip(1).skip(1);
        assert(sp_atom(ts.skip(1), (atom_fuel(ts) - 1) as nat) == ParseOut::Parsed(
            ExprModel::IntLiteral(vals[0]),
            rest,
        ));
        let left2 = ExprModel::BiOper(ops[0], Box::new((left, ExprModel::IntLiteral(vals[0]))));
        assert(is_chain_tail(rest, vals.skip(1), ops.skip(1))) by {
            assert(rest.len() == 2 * ops.skip(1).len() + 1);
            assert forall|k: int| 0 <= k < ops.skip(1).len() implies spec_add_sub(
                #[trigger] rest[2 * k].kind,
            ) == Some(ops.skip(1)[k]) by {
                assert(rest[2 * k] == ts[2 * (k + 1)]);
            }
            assert forall|k: int| 0 <= k < vals.skip(1).len() implies (#[trigger] rest[2 * k
                + 1].kind) == TokenKindModel::Int(vals.skip(1)[k]) by {
                assert(rest[2 * k + 1] == ts[2 * (k + 1) + 1]);
            }
            assert(rest.last() == ts.last());
        }
        lemma_chain_tail_wf(rest, vals.skip(1), ops.skip(1));
        lemma_more_parses_chain(left2, rest, vals.skip(1), ops.skip(1));
        lemma_more_fuel(left2, rest, (atom_fuel(ts) - 1) as nat, atom_fuel(rest));
    }
}

/// Law: a chain of integer literals joined by `+` and `-` parses to its
/// left-associative tree, that tree compiles, and running the compiled
/// program on a fresh machine yields a final operand stack holding exactly
/// the chain's left-associative evaluation — no intermediate literal is left
/// on the stack — with the variable stack left empty.
pub proof fn lemma_int_chain_end_to_end(
    ts: Seq<TokenModel>,
    vals: Seq<i32>,
    ops: Seq<BiOper>,
    st: VmState,
)
    requires
        is_int_chain(ts, vals, ops),
        add_sub_only(ops),
        st.lp == 0,
        st.stack =~= Seq::<Value>::empty(),
        st.vars =~= Seq::<Value>::empty(),
        st.insts == gen_spec(chain_expr(vals, ops), Seq::empty(), 0)->Emitted_0,
        st.consts == gen_spec(chain_expr(vals, ops), Seq::empty(), 0)->Emitted_1,
        st.consts.len() <= usize::MAX,
    ensures
        sp_expr_at(ts) == ParseOut::Parsed(chain_expr(vals, ops), seq![ts.last()]),
        gen_spec(chain_expr(vals, ops), Seq::empty(), 0) is Emitted,
        run_spec(st) == Ok::<Seq<Value>, VmErr>(seq![Value::Int(chain_eval(vals, ops))]),
        steps_n(st, st.insts.len()) is Ok,
        steps_n(st, st.insts.len())->Ok_0.vars =~= Seq::<Value>::empty(),
{
    let tail = ts.skip(1);
    lemma_chain_tail_wf(tail, vals.skip(1), ops);
    assert(sp_atom(ts, (expr_fuel(ts) - 1) as nat) == ParseOut::Parsed(
        ExprModel::IntLiteral(vals[0]),
        tail,
    ));
    lemma_more_parses_chain(ExprModel::IntLiteral(vals[0]), tail, vals.skip(1), ops);
    lemma_more_fuel(
        ExprModel::IntLiteral(vals[0]),
        tail,
        (expr_fuel(ts) - 1) as nat,
        atom_fuel(tail),
    );
    lemma_chain_is_ext(vals, ops);
    assert(tail.last() == ts.last());
    lemma_chain_expr_facts(vals, ops, Seq::empty(), 0, Seq::empty(), Seq::empty());
    lemma_compiled_expr_runs(chain_expr(vals, ops), st);
}

} // verus!
