//! Laws of the semantics, proved once and for all: frame balance (a call
//! never changes the caller's depth), idempotence of re-running a program
//! from a fresh environment, and the straight-line law that for a program of
//! top-level literal assignments the final recorded value of a variable is
//! the last literal assigned to it.

use vstd::prelude::*;
use crate::model::{
    SExpr, SStmt, SMethod, SBind, SEnv, SState, sp_lookup_cur, sp_assign, sp_find_at_depth,
};
use crate::semantics::{
    sp_bind_params, sp_eval_expr, sp_eval_call_expr, sp_eval_args, sp_eval_call, sp_exec_stmts,
    sp_exec_stmt, sp_exec_compound, sp_eval_while,
};
use crate::runtime::st_of;

verus! {

broadcast use vstd::seq::group_seq_axioms;

// ---------------------------------------------------------------------------
// Frame balance
// ---------------------------------------------------------------------------

/// Evaluating an expression leaves the call depth unchanged.
pub proof fn lemma_expr_depth(e: SExpr, ms: Seq<(Seq<char>, SMethod)>, st: SState, fuel: nat)
    ensures
        sp_eval_expr(e, ms, st, fuel).0.env.depth == st.env.depth,
    decreases fuel,
{
    if fuel > 0 {
        match e {
            SExpr::Lit(_) => {},
            SExpr::Var(n) => {
                match sp_lookup_cur(st.env, n) {
                    Some(e2) => lemma_expr_depth(e2, ms, st, (fuel - 1) as nat),
                    None => {},
                }
            },
            SExpr::Call(name, args) => lemma_call_expr_depth(name, args, ms, st, (fuel - 1) as nat),
        }
    }
}

/// Evaluating a call expression leaves the call depth unchanged.
pub proof fn lemma_call_expr_depth(
    name: Seq<char>,
    args: Seq<SExpr>,
    ms: Seq<(Seq<char>, SMethod)>,
    st: SState,
    fuel: nat,
)
    ensures
        sp_eval_call_expr(name, args, ms, st, fuel).0.env.depth == st.env.depth,
    decreases fuel,
{
    if fuel > 0 {
        match crate::semantics::sp_lookup_method(ms, name) {
            None => {},
            Some(md) => {
                lemma_args_depth(args, 0, ms, st, (fuel - 1) as nat);
                let (st1, vals) = sp_eval_args(args, 0, ms, st, (fuel - 1) as nat);
                lemma_frame_balance(md, vals, ms, st1, (fuel - 1) as nat);
            },
        }
    }
}

/// Evaluating an argument list leaves the call depth unchanged.
pub proof fn lemma_args_depth(
    args: Seq<SExpr>,
    i: int,
    ms: Seq<(Seq<char>, SMethod)>,
    st: SState,
    fuel: nat,
)
    ensures
        sp_eval_args(args, i, ms, st, fuel).0.env.depth == st.env.depth,
    decreases fuel,
{
    if fuel > 0 && 0 <= i < args.len() {
        lemma_expr_depth(args[i], ms, st, (fuel - 1) as nat);
        let (st1, _) = sp_eval_expr(args[i], ms, st, (fuel - 1) as nat);
        lemma_args_depth(args, i + 1, ms, st1, (fuel - 1) as nat);
    }
}

/// Frame balance: for every call, successful or failed, the environment's
/// depth after the call equals its depth immediately before the call.  The
/// frame the call pushes is popped unconditionally, even when the body runs
/// into a fault or ends without a return.
pub proof fn lemma_frame_balance(
    md: SMethod,
    vals: Seq<u32>,
    ms: Seq<(Seq<char>, SMethod)>,
    st: SState,
    fuel: nat,
)
    ensures
        sp_eval_call(md, vals, ms, st, fuel).0.env.depth == st.env.depth,
    decreases fuel,
{
    if fuel > 0 && st.env.depth < u32::MAX {
        let env1 = SEnv { binds: st.env.binds, depth: (st.env.depth + 1) as u32 };
        lemma_bind_params_depth(env1, md.params, vals, 0);
        let env2 = sp_bind_params(env1, md.params, vals, 0);
        lemma_stmts_depth(
            md.body,
            0,
            ms,
            SState { env: env2, failed: st.failed },
            (fuel - 1) as nat,
        );
    }
}

/// Installing parameters writes bindings but never changes the depth.
pub proof fn lemma_bind_params_depth(env: SEnv, params: Seq<Seq<char>>, vals: Seq<u32>, i: int)
    ensures
        sp_bind_params(env, params, vals, i).depth == env.depth,
    decreases params.len() - i,
{
    if 0 <= i < params.len() && i < vals.len() {
        lemma_bind_params_depth(sp_assign(env, params[i], SExpr::Lit(vals[i])), params, vals, i + 1);
    }
}

/// Executing a statement list leaves the call depth unchanged.
pub proof fn lemma_stmts_depth(
    ss: Seq<SStmt>,
    i: int,
    ms: Seq<(Seq<char>, SMethod)>,
    st: SState,
    fuel: nat,
)
    ensures
        sp_exec_stmts(ss, i, ms, st, fuel).0.env.depth == st.env.depth,
    decreases fuel,
{
    if fuel > 0 && 0 <= i < ss.len() {
        lemma_stmt_depth(ss[i], ms, st, (fuel - 1) as nat);
        let (st1, r) = sp_exec_stmt(ss[i], ms, st, (fuel - 1) as nat);
        if r is None {
            lemma_stmts_depth(ss, i + 1, ms, st1, (fuel - 1) as nat);
        }
    }
}

/// Executing one statement leaves the call depth unchanged: only a call
/// moves the depth, and it restores it.
pub proof fn lemma_stmt_depth(s: SStmt, ms: Seq<(Seq<char>, SMethod)>, st: SState, fuel: nat)
    ensures
        sp_exec_stmt(s, ms, st, fuel).0.env.depth == st.env.depth,
    decreases fuel,
{
    if fuel > 0 {
        match s {
            SStmt::Assign(n, e) => {},
            SStmt::Compound(n, op, rhs) => lemma_compound_depth(n, op, rhs, ms, st, (fuel - 1) as nat),
            SStmt::CallStmt(name, args) => lemma_call_expr_depth(
                name,
                args,
                ms,
                st,
                (fuel - 1) as nat,
            ),
            SStmt::While(cv, body) => lemma_while_depth(cv, body, ms, st, (fuel - 1) as nat),
            SStmt::Return(opt) => match opt {
                None => {},
                Some(e) => lemma_expr_depth(e, ms, st, (fuel - 1) as nat),
            },
        }
    }
}

/// A compound update leaves the call depth unchanged.
pub proof fn lemma_compound_depth(
    n: Seq<char>,
    op: crate::model::SOp,
    rhs: SExpr,
    ms: Seq<(Seq<char>, SMethod)>,
    st: SState,
    fuel: nat,
)
    ensures
        sp_exec_compound(n, op, rhs, ms, st, fuel).0.env.depth == st.env.depth,
    decreases fuel,
{
    if fuel > 0 {
        match crate::model::sp_best_index(st.env.binds, n) {
            None => {},
            Some(j) => {
                lemma_expr_depth(rhs, ms, st, (fuel - 1) as nat);
                let (st1, _) = sp_eval_expr(rhs, ms, st, (fuel - 1) as nat);
                if 0 <= j < st1.env.binds.len() {
                    lemma_expr_depth(st1.env.binds[j].expr, ms, st1, (fuel - 1) as nat);
                }
            },
        }
    }
}

/// A while loop leaves the call depth unchanged.
pub proof fn lemma_while_depth(
    cv: Seq<char>,
    body: Seq<SStmt>,
    ms: Seq<(Seq<char>, SMethod)>,
    st: SState,
    fuel: nat,
)
    ensures
        sp_eval_while(cv, body, ms, st, fuel).0.env.depth == st.env.depth,
    decreases fuel,
{
    if fuel > 0 {
        match sp_lookup_cur(st.env, cv) {
            None => {},
            Some(ce) => {
                lemma_expr_depth(ce, ms, st, (fuel - 1) as nat);
                let (st1, v) = sp_eval_expr(ce, ms, st, (fuel - 1) as nat);
                if v != 0 {
                    lemma_stmts_depth(body, 0, ms, st1, (fuel - 1) as nat);
                    let (st2, r) = sp_exec_stmts(body, 0, ms, st1, (fuel - 1) as nat);
                    if r is None {
                        lemma_while_depth(cv, body, ms, st2, (fuel - 1) as nat);
                    }
                }
            },
        }
    }
}

/// A whole program run keeps the environment at the top-level depth: after
/// the top-level statement list, however many calls ran or faulted inside
/// it, the depth is 0 again.
pub proof fn lemma_run_stays_at_top_depth(
    body: Seq<SStmt>,
    ms: Seq<(Seq<char>, SMethod)>,
    fuel: nat,
)
    ensures
        sp_exec_stmts(body, 0, ms, st_of(SEnv::empty(), false), fuel).0.env.depth == 0,
{
    lemma_stmts_depth(body, 0, ms, st_of(SEnv::empty(), false), fuel);
}

// ---------------------------------------------------------------------------
// Idempotence of re-running a program
// ---------------------------------------------------------------------------

/// Re-running the same program against a freshly constructed variable
/// environment yields the identical outcome: execution is a function of the
/// program and the initial environment alone, the method table is read-only,
/// and no state leaks from one run into the next.
pub proof fn lemma_rerun_idempotent(
    body: Seq<SStmt>,
    ms: Seq<(Seq<char>, SMethod)>,
    fuel: nat,
)
    ensures
        sp_exec_stmts(body, 0, ms, st_of(SEnv::empty(), false), fuel) == sp_exec_stmts(
            body,
            0,
            ms,
            st_of(SEnv::empty(), false),
            fuel,
        ),
{
}

// ---------------------------------------------------------------------------
// Straight-line assignment programs
// ---------------------------------------------------------------------------

/// A program consisting solely of top-level assignments of literals.
pub open spec fn all_lit_assigns(ss: Seq<SStmt>) -> bool {
    forall|i: int|
        0 <= i < ss.len() ==> ((#[trigger] ss[i]) matches SStmt::Assign(n, e) && e is Lit)
}

/// The name an assignment writes.
pub open spec fn assign_name(s: SStmt) -> Seq<char> {
    match s {
        SStmt::Assign(n, _) => n,
        _ => Seq::empty(),
    }
}

/// The expression an assignment stores.
pub open spec fn assign_expr(s: SStmt) -> SExpr {
    match s {
        SStmt::Assign(_, e) => e,
        _ => SExpr::Lit(0),
    }
}

/// The environment after folding plain assignments over the statements.
pub open spec fn sp_assign_fold(env: SEnv, ss: Seq<SStmt>, i: int) -> SEnv
    decreases ss.len() - i,
{
    if i < 0 || i >= ss.len() {
        env
    } else {
        sp_assign_fold(sp_assign(env, assign_name(ss[i]), assign_expr(ss[i])), ss, i + 1)
    }
}

/// Running a straight-line assignment program is exactly the assignment
/// fold: no fault arises and no value is returned.
pub proof fn lemma_straight_line_runs(
    ss: Seq<SStmt>,
    i: int,
    ms: Seq<(Seq<char>, SMethod)>,
    st: SState,
    fuel: nat,
)
    requires
        all_lit_assigns(ss),
        0 <= i <= ss.len(),
        fuel >= 2 * (ss.len() - i) + 1,
    ensures
        sp_exec_stmts(ss, i, ms, st, fuel) == (
            SState { env: sp_assign_fold(st.env, ss, i), failed: st.failed },
            None::<u32>,
        ),
    decreases ss.len() - i,
{
    if i < ss.len() {
        assert((ss[i] matches SStmt::Assign(n, e) && e is Lit));
        let st1 = sp_exec_stmt(ss[i], ms, st, (fuel - 1) as nat).0;
        lemma_straight_line_runs(ss, i + 1, ms, st1, (fuel - 1) as nat);
    }
}

/// After an assignment, the name reads back as the stored expression.
pub proof fn lemma_assign_lookup_same(env: SEnv, n: Seq<char>, e: SExpr)
    ensures
        sp_lookup_cur(sp_assign(env, n, e), n) == Some(e),
{
    crate::model::lemma_find_at_depth(env.binds, n, env.depth);
    match sp_find_at_depth(env.binds, n, env.depth) {
        Some(j) => {
            let binds2 = env.binds.update(j, SBind { name: n, expr: e, depth: env.depth });
            lemma_find_update_match(env.binds, n, env.depth, j, e);
        },
        None => {
            lemma_find_push_match(env.binds, n, env.depth, e);
        },
    }
}

/// Updating the found index to a matching binding keeps it the found index.
proof fn lemma_find_update_match(binds: Seq<SBind>, n: Seq<char>, d: u32, j: int, e: SExpr)
    requires
        sp_find_at_depth(binds, n, d) == Some(j),
    ensures
        sp_find_at_depth(binds.update(j, SBind { name: n, expr: e, depth: d }), n, d) == Some(j),
        0 <= j < binds.len(),
    decreases binds.len(),
{
    crate::model::lemma_find_at_depth(binds, n, d);
    let b2 = binds.update(j, SBind { name: n, expr: e, depth: d });
    if binds.len() > 0 {
        if binds[0].name == n && binds[0].depth == d {
            assert(j == 0);
        } else {
            assert(b2[0] == binds[0]);
            assert(b2.drop_first() =~= binds.drop_first().update(
                j - 1,
                SBind { name: n, expr: e, depth: d },
            ));
            lemma_find_update_match(binds.drop_first(), n, d, j - 1, e);
        }
    }
}

/// Pushing a matching binding onto a list with no match makes it the found
/// binding, at the end.
proof fn lemma_find_push_match(binds: Seq<SBind>, n: Seq<char>, d: u32, e: SExpr)
    requires
        sp_find_at_depth(binds, n, d) is None,
    ensures
        sp_find_at_depth(binds.push(SBind { name: n, expr: e, depth: d }), n, d) == Some(
            binds.len() as int,
        ),
    decreases binds.len(),
{
    let b2 = binds.push(SBind { name: n, expr: e, depth: d });
    if binds.len() == 0 {
        assert(b2[0] == SBind { name: n, expr: e, depth: d });
    } else {
        assert(b2[0] == binds[0]);
        assert(b2.drop_first() =~= binds.drop_first().push(SBind { name: n, expr: e, depth: d }));
        lemma_find_push_match(binds.drop_first(), n, d, e);
    }
}

/// An assignment to a different name does not change what this name reads
/// back as.
pub proof fn lemma_assign_lookup_other(env: SEnv, n2: Seq<char>, e: SExpr, n: Seq<char>)
    requires
        n2 != n,
    ensures
        sp_lookup_cur(sp_assign(env, n2, e), n) == sp_lookup_cur(env, n),
{
    crate::model::lemma_find_at_depth(env.binds, n2, env.depth);
    crate::model::lemma_find_at_depth(env.binds, n, env.depth);
    let x = SBind { name: n2, expr: e, depth: env.depth };
    match sp_find_at_depth(env.binds, n2, env.depth) {
        Some(j) => {
            lemma_find_update_other(env.binds, j, x, n, env.depth);
            let b2 = env.binds.update(j, x);
            crate::model::lemma_find_at_depth(b2, n, env.depth);
        },
        None => {
            lemma_find_push_other(env.binds, x, n, env.depth);
            let b2 = env.binds.push(x);
            crate::model::lemma_find_at_depth(b2, n, env.depth);
        },
    }
}

/// Pushing a binding that does not match keeps the found index.
proof fn lemma_find_push_other(binds: Seq<SBind>, x: SBind, n: Seq<char>, d: u32)
    requires
        !(x.name == n && x.depth == d),
    ensures
        sp_find_at_depth(binds.push(x), n, d) == sp_find_at_depth(binds, n, d),
    decreases binds.len(),
{
    let b2 = binds.push(x);
    if binds.len() == 0 {
        assert(b2.drop_first() =~= Seq::<SBind>::empty());
        assert(b2[0] == x);
        assert(sp_find_at_depth(b2.drop_first(), n, d) is None);
        assert(sp_find_at_depth(b2, n, d) is None);
        assert(sp_find_at_depth(binds, n, d) is None);
    } else {
        assert(b2[0] == binds[0]);
        assert(b2.drop_first() =~= binds.drop_first().push(x));
        lemma_find_push_other(binds.drop_first(), x, n, d);
        if binds[0].name == n && binds[0].depth == d {
            assert(sp_find_at_depth(binds, n, d) == Some(0int));
            assert(sp_find_at_depth(b2, n, d) == Some(0int));
        } else {
            assert(sp_find_at_depth(b2.drop_first(), n, d) == sp_find_at_depth(
                binds.drop_first(),
                n,
                d,
            ));
        }
    }
}

/// Replacing a non-matching binding by a non-matching binding keeps the
/// found index.
proof fn lemma_find_update_other(binds: Seq<SBind>, j: int, x: SBind, n: Seq<char>, d: u32)
    requires
        0 <= j < binds.len(),
        !(x.name == n && x.depth == d),
        !(binds[j].name == n && binds[j].depth == d),
    ensures
        sp_find_at_depth(binds.update(j, x), n, d) == sp_find_at_depth(binds, n, d),
    decreases binds.len(),
{
    let b2 = binds.update(j, x);
    if j == 0 {
        assert(b2.drop_first() =~= binds.drop_first());
    } else {
        assert(b2[0] == binds[0]);
        assert(b2.drop_first() =~= binds.drop_first().update(j - 1, x));
        lemma_find_update_other(binds.drop_first(), j - 1, x, n, d);
    }
}

/// After the assignment fold, a name whose last assignment was at index `j`
/// reads back as that assignment's expression.
pub proof fn lemma_fold_last_assign(env: SEnv, ss: Seq<SStmt>, i: int, j: int, n: Seq<char>)
    requires
        all_lit_assigns(ss),
        0 <= i <= j < ss.len(),
        assign_name(ss[j]) == n,
        forall|k: int| j < k < ss.len() ==> assign_name(#[trigger] ss[k]) != n,
    ensures
        sp_lookup_cur(sp_assign_fold(env, ss, i), n) == Some(assign_expr(ss[j])),
    decreases ss.len() - i,
{
    let env1 = sp_assign(env, assign_name(ss[i]), assign_expr(ss[i]));
    if i == j {
        lemma_assign_lookup_same(env, n, assign_expr(ss[j]));
        lemma_fold_keeps_other(env1, ss, i + 1, n, assign_expr(ss[j]));
    } else {
        lemma_fold_last_assign(env1, ss, i + 1, j, n);
    }
}

/// The assignment fold over statements that never assign a name keeps what
/// the name reads back as.
proof fn lemma_fold_keeps_other(env: SEnv, ss: Seq<SStmt>, i: int, n: Seq<char>, e: SExpr)
    requires
        all_lit_assigns(ss),
        0 <= i <= ss.len(),
        forall|k: int| i <= k < ss.len() ==> assign_name(#[trigger] ss[k]) != n,
        sp_lookup_cur(env, n) == Some(e),
    ensures
        sp_lookup_cur(sp_assign_fold(env, ss, i), n) == Some(e),
    decreases ss.len() - i,
{
    if i < ss.len() {
        lemma_assign_lookup_other(env, assign_name(ss[i]), assign_expr(ss[i]), n);
        lemma_fold_keeps_other(
            sp_assign(env, assign_name(ss[i]), assign_expr(ss[i])),
            ss,
            i + 1,
            n,
            e,
        );
    }
}

/// The straight-line law: running a program of top-level literal assignments
/// from a fresh environment never faults, and every assigned variable ends
/// recorded as the last literal assigned to it.
pub proof fn lemma_straight_line_last_assign(
    ss: Seq<SStmt>,
    ms: Seq<(Seq<char>, SMethod)>,
    j: int,
    n: Seq<char>,
    v: u32,
    fuel: nat,
)
    requires
        all_lit_assigns(ss),
        0 <= j < ss.len(),
        ss[j] == SStmt::Assign(n, SExpr::Lit(v)),
        forall|k: int| j < k < ss.len() ==> assign_name(#[trigger] ss[k]) != n,
        fuel >= 2 * ss.len() + 1,
    ensures
        ({
            let (st1, r) = sp_exec_stmts(ss, 0, ms, st_of(SEnv::empty(), false), fuel);
            &&& r is None
            &&& !st1.failed
            &&& sp_lookup_cur(st1.env, n) == Some(SExpr::Lit(v))
        }),
{
    lemma_straight_line_runs(ss, 0, ms, st_of(SEnv::empty(), false), fuel);
    lemma_fold_last_assign(SEnv::empty(), ss, 0, j, n);
}

} // verus!
