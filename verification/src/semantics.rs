//! The mathematical semantics of program execution: a fuel-indexed,
//! state-passing evaluator over the abstract syntax.
//!
//! Every step of recursion — reading a variable, calling a method, one
//! iteration of a while loop, one statement — spends one unit of fuel, so
//! each function is total; running out of fuel raises the error flag, the
//! same degraded outcome as any other runtime fault.  Faults never unwind:
//! the failing expression evaluates to the sentinel `0` and execution
//! continues.

use vstd::prelude::*;
use crate::model::{
    SExpr, SOp, SStmt, SMethod, SBind, SEnv, SState, sp_fail, sp_lookup_cur, sp_assign,
    sp_best_index, sp_drop_depth,
};

verus! {

/// A method table: name-keyed definitions, later entries overriding earlier
/// ones.
pub open spec fn sp_lookup_method(ms: Seq<(Seq<char>, SMethod)>, name: Seq<char>) -> Option<
    SMethod,
>
    decreases ms.len(),
{
    if ms.len() == 0 {
        None
    } else if ms.last().0 == name {
        Some(ms.last().1)
    } else {
        sp_lookup_method(ms.drop_last(), name)
    }
}

/// `+` and `-` on unsigned words, wrapping on overflow.
pub open spec fn sp_wrap_op(op: SOp, a: u32, b: u32) -> u32 {
    match op {
        SOp::Add => ((a + b) % 0x1_0000_0000) as u32,
        SOp::Sub => ((a - b) % 0x1_0000_0000) as u32,
    }
}

/// Install positional parameters in the environment: each parameter name is
/// bound at the current depth to the literal value of its argument; missing
/// arguments stay unbound, extra arguments are dropped.
pub open spec fn sp_bind_params(env: SEnv, params: Seq<Seq<char>>, vals: Seq<u32>, i: int) -> SEnv
    decreases params.len() - i,
{
    if i < 0 || i >= params.len() || i >= vals.len() {
        env
    } else {
        sp_bind_params(sp_assign(env, params[i], SExpr::Lit(vals[i])), params, vals, i + 1)
    }
}

/// Remove every binding of the current depth, then step back to the caller's
/// depth.
pub open spec fn sp_pop_frame(env: SEnv) -> SEnv {
    SEnv {
        binds: sp_drop_depth(env.binds, env.depth),
        depth: if env.depth > 0 {
            (env.depth - 1) as u32
        } else {
            0
        },
    }
}

/// Evaluate an expression: a literal is itself; a variable read evaluates
/// the expression bound at exactly the current depth, or faults to `0`; a
/// call runs the method.
pub open spec fn sp_eval_expr(
    e: SExpr,
    ms: Seq<(Seq<char>, SMethod)>,
    st: SState,
    fuel: nat,
) -> (SState, u32)
    decreases fuel,
{
    if fuel == 0 {
        (sp_fail(st), 0u32)
    } else {
        match e {
            SExpr::Lit(v) => (st, v),
            SExpr::Var(n) => match sp_lookup_cur(st.env, n) {
                Some(e2) => sp_eval_expr(e2, ms, st, (fuel - 1) as nat),
                None => (sp_fail(st), 0u32),
            },
            SExpr::Call(name, args) => sp_eval_call_expr(name, args, ms, st, (fuel - 1) as nat),
        }
    }
}

/// Evaluate a call expression: look the method up, evaluate the arguments
/// left to right in the caller's frame, then run the call.  An undefined
/// method faults to `0` with the arguments unevaluated.
pub open spec fn sp_eval_call_expr(
    name: Seq<char>,
    args: Seq<SExpr>,
    ms: Seq<(Seq<char>, SMethod)>,
    st: SState,
    fuel: nat,
) -> (SState, u32)
    decreases fuel,
{
    if fuel == 0 {
        (sp_fail(st), 0u32)
    } else {
        match sp_lookup_method(ms, name) {
            None => (sp_fail(st), 0u32),
            Some(md) => {
                let (st1, vals) = sp_eval_args(args, 0, ms, st, (fuel - 1) as nat);
                sp_eval_call(md, vals, ms, st1, (fuel - 1) as nat)
            },
        }
    }
}

/// Evaluate the arguments of a call, left to right.
pub open spec fn sp_eval_args(
    args: Seq<SExpr>,
    i: int,
    ms: Seq<(Seq<char>, SMethod)>,
    st: SState,
    fuel: nat,
) -> (SState, Seq<u32>)
    decreases fuel,
{
    if fuel == 0 {
        (sp_fail(st), Seq::<u32>::empty())
    } else if i < 0 || i >= args.len() {
        (st, Seq::<u32>::empty())
    } else {
        let (st1, v) = sp_eval_expr(args[i], ms, st, (fuel - 1) as nat);
        let (st2, rest) = sp_eval_args(args, i + 1, ms, st1, (fuel - 1) as nat);
        (st2, seq![v] + rest)
    }
}

/// Run a method on already-evaluated argument values: push a frame, bind the
/// parameters positionally, execute the body, pop the frame unconditionally.
/// The result is the returned value, or the sentinel `0` when the body ends
/// without a return.
pub open spec fn sp_eval_call(
    md: SMethod,
    vals: Seq<u32>,
    ms: Seq<(Seq<char>, SMethod)>,
    st: SState,
    fuel: nat,
) -> (SState, u32)
    decreases fuel,
{
    if fuel == 0 {
        (sp_fail(st), 0u32)
    } else if st.env.depth == u32::MAX {
        (sp_fail(st), 0u32)
    } else {
        let env1 = SEnv { binds: st.env.binds, depth: (st.env.depth + 1) as u32 };
        let env2 = sp_bind_params(env1, md.params, vals, 0);
        let (st2, r) = sp_exec_stmts(
            md.body,
            0,
            ms,
            SState { env: env2, failed: st.failed },
            (fuel - 1) as nat,
        );
        let env3 = sp_pop_frame(st2.env);
        let value = match r {
            Some(v) => v,
            None => 0u32,
        };
        (SState { env: env3, failed: st2.failed }, value)
    }
}

/// Execute a statement list from index `i` on; a returned value propagates
/// immediately.
pub open spec fn sp_exec_stmts(
    ss: Seq<SStmt>,
    i: int,
    ms: Seq<(Seq<char>, SMethod)>,
    st: SState,
    fuel: nat,
) -> (SState, Option<u32>)
    decreases fuel,
{
    if fuel == 0 {
        (sp_fail(st), None::<u32>)
    } else if i < 0 || i >= ss.len() {
        (st, None::<u32>)
    } else {
        let (st1, r) = sp_exec_stmt(ss[i], ms, st, (fuel - 1) as nat);
        match r {
            Some(v) => (st1, Some(v)),
            None => sp_exec_stmts(ss, i + 1, ms, st1, (fuel - 1) as nat),
        }
    }
}

/// Execute one statement.
pub open spec fn sp_exec_stmt(
    s: SStmt,
    ms: Seq<(Seq<char>, SMethod)>,
    st: SState,
    fuel: nat,
) -> (SState, Option<u32>)
    decreases fuel,
{
    if fuel == 0 {
        (sp_fail(st), None::<u32>)
    } else {
        match s {
            SStmt::Assign(n, e) => (
                SState { env: sp_assign(st.env, n, e), failed: st.failed },
                None::<u32>,
            ),
            SStmt::Compound(n, op, rhs) => sp_exec_compound(n, op, rhs, ms, st, (fuel - 1) as nat),
            SStmt::CallStmt(name, args) => {
                let (st1, v) = sp_eval_call_expr(name, args, ms, st, (fuel - 1) as nat);
                (st1, None::<u32>)
            },
            SStmt::While(cv, body) => sp_eval_while(cv, body, ms, st, (fuel - 1) as nat),
            SStmt::Return(opt) => match opt {
                None => (st, Some(0u32)),
                Some(e) => {
                    let (st1, v) = sp_eval_expr(e, ms, st, (fuel - 1) as nat);
                    (st1, Some(v))
                },
            },
        }
    }
}

/// Execute a compound update: the target is the innermost live binding of
/// the name across all depths; it is rewritten in place to the literal
/// result of `current op rhs`, the right-hand side evaluated first.  An
/// unbound name is a fault.
pub open spec fn sp_exec_compound(
    n: Seq<char>,
    op: SOp,
    rhs: SExpr,
    ms: Seq<(Seq<char>, SMethod)>,
    st: SState,
    fuel: nat,
) -> (SState, Option<u32>)
    decreases fuel,
{
    if fuel == 0 {
        (sp_fail(st), None::<u32>)
    } else {
        match sp_best_index(st.env.binds, n) {
            None => (sp_fail(st), None::<u32>),
            Some(j) => {
                let (st1, bv) = sp_eval_expr(rhs, ms, st, (fuel - 1) as nat);
                if 0 <= j < st1.env.binds.len() {
                    let cur = st1.env.binds[j].expr;
                    let (st2, av) = sp_eval_expr(cur, ms, st1, (fuel - 1) as nat);
                    let nv = sp_wrap_op(op, av, bv);
                    if j < st2.env.binds.len() {
                        let b = st2.env.binds[j];
                        let binds2 = st2.env.binds.update(
                            j,
                            SBind { name: b.name, expr: SExpr::Lit(nv), depth: b.depth },
                        );
                        (
                            SState {
                                env: SEnv { binds: binds2, depth: st2.env.depth },
                                failed: st2.failed,
                            },
                            None::<u32>,
                        )
                    } else {
                        (st2, None::<u32>)
                    }
                } else {
                    (st1, None::<u32>)
                }
            },
        }
    }
}

/// Execute a while loop: the condition variable is read afresh at exactly
/// the current depth before every iteration; the loop runs while its value
/// is not `0`; a value returned inside the body exits the whole loop at
/// once.  An unbound condition variable is a fault.
pub open spec fn sp_eval_while(
    cv: Seq<char>,
    body: Seq<SStmt>,
    ms: Seq<(Seq<char>, SMethod)>,
    st: SState,
    fuel: nat,
) -> (SState, Option<u32>)
    decreases fuel,
{
    if fuel == 0 {
        (sp_fail(st), None::<u32>)
    } else {
        match sp_lookup_cur(st.env, cv) {
            None => (sp_fail(st), None::<u32>),
            Some(ce) => {
                let (st1, v) = sp_eval_expr(ce, ms, st, (fuel - 1) as nat);
                if v == 0 {
                    (st1, None::<u32>)
                } else {
                    let (st2, r) = sp_exec_stmts(body, 0, ms, st1, (fuel - 1) as nat);
                    match r {
                        Some(v2) => (st2, Some(v2)),
                        None => sp_eval_while(cv, body, ms, st2, (fuel - 1) as nat),
                    }
                }
            },
        }
    }
}

} // verus!
