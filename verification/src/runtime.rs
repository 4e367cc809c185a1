//! The tree-walking evaluator and the run driver.
//!
//! Every executable function here mirrors one function of the mathematical
//! semantics in `semantics` exactly, with the same fuel discipline: each
//! recursion step spends one unit, and running out of fuel raises the error
//! flag.  Runtime faults (an unbound variable, an undefined method) are
//! recorded on the status sink and the failing expression evaluates to the
//! sentinel `0`; execution continues in the degraded state.

use vstd::prelude::*;
use vstd::string::*;
use crate::lexis::{NameToken, DigitToken};
use crate::model::{SExpr, SState, SEnv, SMethod, sp_assign};
use crate::semantics::{
    sp_lookup_method, sp_wrap_op, sp_bind_params, sp_pop_frame, sp_eval_expr, sp_eval_call_expr,
    sp_eval_args, sp_eval_call, sp_exec_stmts, sp_exec_stmt, sp_exec_compound, sp_eval_while,
};
use crate::model::{SOp, SStmt};
use crate::status::Status;
use crate::env::{VariablesList, MethodsList};
use crate::tokens::{
    AssignableToken, MethodCallToken, VariableToken, AdditiveOperatorToken, Operator, view_expr,
    view_exprs, view_names,
};
use crate::scopes::{
    Stackable, WhileToken, MethodToken, TopLevelScope, view_stackable, view_stackables,
    wf_stackable, wf_stackables, view_method, view_methods, wf_method, wf_methods,
    lemma_view_stackables, lemma_wf_stackables, lemma_view_methods,
};

verus! {

broadcast use vstd::seq::group_seq_axioms, vstd::std_specs::vec::group_vec_axioms;

/// The whole evaluation state as the semantics sees it.
pub open spec fn st_of(env: SEnv, failed: bool) -> SState {
    SState { env, failed }
}

/// Addition on unsigned words, wrapping on overflow.
fn wrap_add(a: u32, b: u32) -> (r: u32)
    ensures
        r == sp_wrap_op(SOp::Add, a, b),
{
    let s: u64 = a as u64 + b as u64;
    (s % 0x1_0000_0000) as u32
}

/// Subtraction on unsigned words, wrapping on underflow.
fn wrap_sub(a: u32, b: u32) -> (r: u32)
    ensures
        r == sp_wrap_op(SOp::Sub, a, b),
{
    if a >= b {
        a - b
    } else {
        let r = 0x1_0000_0000u64 - (b as u64 - a as u64);
        proof {
            assert((a - b) % 0x1_0000_0000 == r as int) by (nonlinear_arith)
                requires
                    a < b,
                    0 <= a < 0x1_0000_0000,
                    0 <= b < 0x1_0000_0000,
                    r == 0x1_0000_0000 - (b - a),
            ;
        }
        r as u32
    }
}

/// Evaluate an expression token against the live environment.
fn eval_assignable(
    e: &AssignableToken,
    methods: &MethodsList,
    vars: &mut VariablesList,
    status: &mut Status,
    fuel: u64,
) -> (v: u32)
    requires
        methods.wf(),
    ensures
        ({
            let (st2, val) = sp_eval_expr(
                view_expr(*e),
                methods@,
                st_of(old(vars)@, old(status)@),
                fuel as nat,
            );
            &&& final(vars)@ == st2.env
            &&& final(status)@ == st2.failed
            &&& v == val
        }),
    decreases fuel,
{
    if fuel == 0 {
        status.throw("the evaluation budget is exhausted");
        return 0;
    }
    match e {
        AssignableToken::Digit { value } => value.evaluate(),
        AssignableToken::Name { value } => {
            match vars.find(value.value.as_str()) {
                Some(e2) => eval_assignable(&e2, methods, vars, status, fuel - 1),
                None => {
                    status.throw("the variable is not defined at the current depth");
                    0
                },
            }
        },
        AssignableToken::MethodCall { value } => eval_call_token(
            value,
            methods,
            vars,
            status,
            fuel - 1,
        ),
    }
}

/// Evaluate a call expression: the callee is looked up first; the arguments
/// are then evaluated left to right in the caller's frame.
fn eval_call_token(
    mct: &MethodCallToken,
    methods: &MethodsList,
    vars: &mut VariablesList,
    status: &mut Status,
    fuel: u64,
) -> (v: u32)
    requires
        methods.wf(),
    ensures
        ({
            let (st2, val) = sp_eval_call_expr(
                mct.name.value@,
                view_exprs(mct.parameters@),
                methods@,
                st_of(old(vars)@, old(status)@),
                fuel as nat,
            );
            &&& final(vars)@ == st2.env
            &&& final(status)@ == st2.failed
            &&& v == val
        }),
    decreases fuel,
{
    if fuel == 0 {
        status.throw("the evaluation budget is exhausted");
        return 0;
    }
    let mt = match methods.get(mct.name.value.as_str()) {
        Some(mt) => mt,
        None => {
            status.throw("the method is not defined");
            return 0;
        },
    };
    let vals = eval_args(&mct.parameters, 0, methods, vars, status, fuel - 1);
    run_call(mt, &vals, methods, vars, status, fuel - 1)
}

/// Evaluate the arguments of a call, left to right, in the caller's frame.
fn eval_args(
    args: &Vec<AssignableToken>,
    from: usize,
    methods: &MethodsList,
    vars: &mut VariablesList,
    status: &mut Status,
    fuel: u64,
) -> (vals: Vec<u32>)
    requires
        methods.wf(),
    ensures
        ({
            let (st2, vs) = sp_eval_args(
                view_exprs(args@),
                from as int,
                methods@,
                st_of(old(vars)@, old(status)@),
                fuel as nat,
            );
            &&& final(vars)@ == st2.env
            &&& final(status)@ == st2.failed
            &&& vals@ == vs
        }),
    decreases fuel,
{
    if fuel == 0 {
        status.throw("the evaluation budget is exhausted");
        let r = Vec::<u32>::new();
        proof {
            assert(r@ =~= Seq::<u32>::empty());
        }
        return r;
    }
    proof {
        crate::tokens::lemma_view_exprs(args@);
    }
    if from >= args.len() {
        let r = Vec::<u32>::new();
        proof {
            assert(r@ =~= Seq::<u32>::empty());
        }
        return r;
    }
    let v = eval_assignable(&args[from], methods, vars, status, fuel - 1);
    let mut rest = eval_args(args, from + 1, methods, vars, status, fuel - 1);
    let ghost grest = rest@;
    let mut r: Vec<u32> = Vec::new();
    r.push(v);
    r.append(&mut rest);
    proof {
        assert(r@ =~= seq![v] + grest);
    }
    r
}

/// Run a method on already-evaluated argument values: push a frame, bind the
/// parameters positionally, execute the body, pop the frame unconditionally.
fn run_call(
    md: &MethodToken,
    vals: &Vec<u32>,
    methods: &MethodsList,
    vars: &mut VariablesList,
    status: &mut Status,
    fuel: u64,
) -> (v: u32)
    requires
        methods.wf(),
        wf_method(*md),
    ensures
        ({
            let (st2, val) = sp_eval_call(
                view_method(*md),
                vals@,
                methods@,
                st_of(old(vars)@, old(status)@),
                fuel as nat,
            );
            &&& final(vars)@ == st2.env
            &&& final(status)@ == st2.failed
            &&& v == val
        }),
    decreases fuel,
{
    if fuel == 0 {
        status.throw("the evaluation budget is exhausted");
        return 0;
    }
    if vars.depth() == u32::MAX {
        status.throw("the call depth limit is reached");
        return 0;
    }
    vars.enter_frame();
    let ghost env1 = vars@;
    let ghost gparams = view_names(md.header_token.parameters@);
    let mut i: usize = 0;
    let pn = md.header_token.parameters.len();
    let vn = vals.len();
    proof {
        assert(gparams.len() == md.header_token.parameters@.len());
    }
    while i < pn && i < vn
        invariant
            methods.wf(),
            0 <= i <= gparams.len(),
            pn == gparams.len(),
            vn == vals@.len(),
            sp_bind_params(env1, gparams, vals@, 0) == sp_bind_params(vars@, gparams, vals@,
                i as int),
        decreases pn - i,
    {
        let name = md.header_token.parameters[i].clone();
        proof {
            assert(gparams[i as int] == md.header_token.parameters@[i as int].value@);
        }
        let tok = VariableToken {
            name,
            assignment: AssignableToken::Digit { value: DigitToken::new(vals[i]) },
        };
        vars.add_or_update(tok);
        i = i + 1;
    }
    let ghost env2 = vars@;
    proof {
        assert(env2 == sp_bind_params(env1, gparams, vals@, 0));
    }
    let r = exec_body(&md.scope.stack, 0, methods, vars, status, fuel - 1);
    vars.pop_variables();
    vars.exit_frame();
    match r {
        Some(v) => v,
        None => 0,
    }
}

/// Execute a statement list from an index on; a returned value propagates
/// immediately.
fn exec_body(
    stmts: &Vec<Stackable>,
    from: usize,
    methods: &MethodsList,
    vars: &mut VariablesList,
    status: &mut Status,
    fuel: u64,
) -> (r: Option<u32>)
    requires
        methods.wf(),
        wf_stackables(stmts@),
    ensures
        ({
            let (st2, res) = sp_exec_stmts(
                view_stackables(stmts@),
                from as int,
                methods@,
                st_of(old(vars)@, old(status)@),
                fuel as nat,
            );
            &&& final(vars)@ == st2.env
            &&& final(status)@ == st2.failed
            &&& r == res
        }),
    decreases fuel,
{
    if fuel == 0 {
        status.throw("the evaluation budget is exhausted");
        return None;
    }
    proof {
        lemma_view_stackables(stmts@);
        lemma_wf_stackables(stmts@);
    }
    if from >= stmts.len() {
        return None;
    }
    let r = exec_one(&stmts[from], methods, vars, status, fuel - 1);
    match r {
        Some(v) => Some(v),
        None => exec_body(stmts, from + 1, methods, vars, status, fuel - 1),
    }
}

/// Execute one statement.
fn exec_one(
    stmt: &Stackable,
    methods: &MethodsList,
    vars: &mut VariablesList,
    status: &mut Status,
    fuel: u64,
) -> (r: Option<u32>)
    requires
        methods.wf(),
        wf_stackable(*stmt),
    ensures
        ({
            let (st2, res) = sp_exec_stmt(
                view_stackable(*stmt),
                methods@,
                st_of(old(vars)@, old(status)@),
                fuel as nat,
            );
            &&& final(vars)@ == st2.env
            &&& final(status)@ == st2.failed
            &&& r == res
        }),
    decreases fuel,
{
    if fuel == 0 {
        status.throw("the evaluation budget is exhausted");
        return None;
    }
    match stmt {
        Stackable::VariableToken { value } => {
            vars.add_or_update(value.clone());
            None
        },
        Stackable::AdditiveOperatorToken { value } => exec_compound(
            value,
            methods,
            vars,
            status,
            fuel - 1,
        ),
        Stackable::MethodCallToken { value } => {
            let _ = eval_call_token(value, methods, vars, status, fuel - 1);
            None
        },
        Stackable::WhileToken { value } => {
            let cond = match &value.header_token.against_zero_variable {
                Some(n) => n,
                None => {
                    proof {
                        assert(false);
                    }
                    return None;
                },
            };
            let body = match &value.scope {
                Some(b) => &b.stack,
                None => {
                    proof {
                        assert(false);
                    }
                    return None;
                },
            };
            eval_while_inner(cond, body, methods, vars, status, fuel - 1)
        },
        Stackable::ReturnToken { value } => {
            match &value.return_value {
                None => Some(0),
                Some(e) => Some(eval_assignable(e, methods, vars, status, fuel - 1)),
            }
        },
    }
}

/// Execute a compound update: rewrite the innermost live binding of the name
/// to the literal `current op rhs`, the right-hand side evaluated first.
fn exec_compound(
    a: &AdditiveOperatorToken,
    methods: &MethodsList,
    vars: &mut VariablesList,
    status: &mut Status,
    fuel: u64,
) -> (r: Option<u32>)
    requires
        methods.wf(),
        a.operator != Operator::Noop,
    ensures
        ({
            let (st2, res) = sp_exec_compound(
                a.name.value@,
                crate::tokens::view_op(a.operator),
                view_expr(a.rhs_operand),
                methods@,
                st_of(old(vars)@, old(status)@),
                fuel as nat,
            );
            &&& final(vars)@ == st2.env
            &&& final(status)@ == st2.failed
            &&& r == res
        }),
    decreases fuel,
{
    if fuel == 0 {
        status.throw("the evaluation budget is exhausted");
        return None;
    }
    let j = match vars.best_index(a.name.value.as_str()) {
        Some(j) => j,
        None => {
            status.throw("a compound update cannot touch a variable that does not exist");
            return None;
        },
    };
    let bv = eval_assignable(&a.rhs_operand, methods, vars, status, fuel - 1);
    if j >= vars.len() {
        return None;
    }
    let cur = vars.expr_clone_at(j);
    let av = eval_assignable(&cur, methods, vars, status, fuel - 1);
    let nv = match a.operator {
        Operator::Add => wrap_add(av, bv),
        Operator::Sub => wrap_sub(av, bv),
        Operator::Noop => {
            proof {
                assert(false);
            }
            return None;
        },
    };
    if j < vars.len() {
        vars.set_literal_at(j, nv);
    }
    None
}

/// Execute a while loop: re-read the condition variable at the current depth
/// before every iteration; a value returned inside the body exits at once.
fn eval_while_inner(
    cond: &NameToken,
    body: &Vec<Stackable>,
    methods: &MethodsList,
    vars: &mut VariablesList,
    status: &mut Status,
    fuel: u64,
) -> (r: Option<u32>)
    requires
        methods.wf(),
        wf_stackables(body@),
    ensures
        ({
            let (st2, res) = sp_eval_while(
                cond.value@,
                view_stackables(body@),
                methods@,
                st_of(old(vars)@, old(status)@),
                fuel as nat,
            );
            &&& final(vars)@ == st2.env
            &&& final(status)@ == st2.failed
            &&& r == res
        }),
    decreases fuel,
{
    if fuel == 0 {
        status.throw("the evaluation budget is exhausted");
        return None;
    }
    let ce = match vars.find(cond.value.as_str()) {
        Some(e) => e,
        None => {
            status.throw("the while condition reads a variable that is not defined");
            return None;
        },
    };
    let v = eval_assignable(&ce, methods, vars, status, fuel - 1);
    if v == 0 {
        return None;
    }
    let r = exec_body(body, 0, methods, vars, status, fuel - 1);
    match r {
        Some(v2) => Some(v2),
        None => eval_while_inner(cond, body, methods, vars, status, fuel - 1),
    }
}


// ---------------------------------------------------------------------------
// Evaluation as methods on the tokens
// ---------------------------------------------------------------------------

impl VariablesList {
    /// Apply a compound update to this environment: the innermost live
    /// binding of the name is rewritten to the literal `current op rhs`.
    pub fn update(
        &mut self,
        operator_token: AdditiveOperatorToken,
        methods: &MethodsList,
        status: &mut Status,
        fuel: u64,
    )
        requires
            methods.wf(),
            operator_token.operator != Operator::Noop,
        ensures
            ({
                let (st2, res) = sp_exec_compound(
                    operator_token.name.value@,
                    crate::tokens::view_op(operator_token.operator),
                    view_expr(operator_token.rhs_operand),
                    methods@,
                    st_of(old(self)@, old(status)@),
                    fuel as nat,
                );
                &&& final(self)@ == st2.env
                &&& final(status)@ == st2.failed
            }),
    {
        let _ = exec_compound(&operator_token, methods, self, status, fuel);
    }
}

impl AssignableToken {
    /// Evaluate this expression against the live environment.
    pub fn evaluate(
        &self,
        methods: &MethodsList,
        vars: &mut VariablesList,
        status: &mut Status,
        fuel: u64,
    ) -> (v: u32)
        requires
            methods.wf(),
        ensures
            ({
                let (st2, val) = sp_eval_expr(
                    view_expr(*self),
                    methods@,
                    st_of(old(vars)@, old(status)@),
                    fuel as nat,
                );
                &&& final(vars)@ == st2.env
                &&& final(status)@ == st2.failed
                &&& v == val
            }),
    {
        eval_assignable(self, methods, vars, status, fuel)
    }

    /// Rewrite this expression in place to the literal `self + rhs`, the
    /// right-hand side evaluated first.
    pub fn add_assign(
        &mut self,
        rhs: AssignableToken,
        methods: &MethodsList,
        vars: &mut VariablesList,
        status: &mut Status,
        fuel: u64,
    )
        requires
            methods.wf(),
        ensures
            ({
                let (st1, bv) = sp_eval_expr(
                    view_expr(rhs),
                    methods@,
                    st_of(old(vars)@, old(status)@),
                    fuel as nat,
                );
                let (st2, av) = sp_eval_expr(view_expr(*old(self)), methods@, st1, fuel as nat);
                &&& final(vars)@ == st2.env
                &&& final(status)@ == st2.failed
                &&& view_expr(*final(self)) == SExpr::Lit(sp_wrap_op(SOp::Add, av, bv))
            }),
    {
        let bv = eval_assignable(&rhs, methods, vars, status, fuel);
        let av = eval_assignable(self, methods, vars, status, fuel);
        *self = AssignableToken::Digit { value: DigitToken::new(wrap_add(av, bv)) };
    }

    /// Rewrite this expression in place to the literal `self - rhs`, the
    /// right-hand side evaluated first.
    pub fn sub_assign(
        &mut self,
        rhs: AssignableToken,
        methods: &MethodsList,
        vars: &mut VariablesList,
        status: &mut Status,
        fuel: u64,
    )
        requires
            methods.wf(),
        ensures
            ({
                let (st1, bv) = sp_eval_expr(
                    view_expr(rhs),
                    methods@,
                    st_of(old(vars)@, old(status)@),
                    fuel as nat,
                );
                let (st2, av) = sp_eval_expr(view_expr(*old(self)), methods@, st1, fuel as nat);
                &&& final(vars)@ == st2.env
                &&& final(status)@ == st2.failed
                &&& view_expr(*final(self)) == SExpr::Lit(sp_wrap_op(SOp::Sub, av, bv))
            }),
    {
        let bv = eval_assignable(&rhs, methods, vars, status, fuel);
        let av = eval_assignable(self, methods, vars, status, fuel);
        *self = AssignableToken::Digit { value: DigitToken::new(wrap_sub(av, bv)) };
    }
}

impl NameToken {
    /// Evaluate this name as a variable read at the current depth.
    pub fn evaluate(
        &self,
        methods: &MethodsList,
        vars: &mut VariablesList,
        status: &mut Status,
        fuel: u64,
    ) -> (v: u32)
        requires
            methods.wf(),
        ensures
            ({
                let (st2, val) = sp_eval_expr(
                    SExpr::Var(self.value@),
                    methods@,
                    st_of(old(vars)@, old(status)@),
                    fuel as nat,
                );
                &&& final(vars)@ == st2.env
                &&& final(status)@ == st2.failed
                &&& v == val
            }),
    {
        if fuel == 0 {
            status.throw("the evaluation budget is exhausted");
            return 0;
        }
        match vars.find(self.value.as_str()) {
            Some(e2) => eval_assignable(&e2, methods, vars, status, fuel - 1),
            None => {
                status.throw("the variable is not defined at the current depth");
                0
            },
        }
    }
}

impl MethodCallToken {
    /// Evaluate this call: arguments in the caller's frame, then the full
    /// call protocol.
    pub fn evaluate(
        &self,
        methods: &MethodsList,
        vars: &mut VariablesList,
        status: &mut Status,
        fuel: u64,
    ) -> (v: u32)
        requires
            methods.wf(),
        ensures
            ({
                let (st2, val) = sp_eval_call_expr(
                    self.name.value@,
                    view_exprs(self.parameters@),
                    methods@,
                    st_of(old(vars)@, old(status)@),
                    fuel as nat,
                );
                &&& final(vars)@ == st2.env
                &&& final(status)@ == st2.failed
                &&& v == val
            }),
    {
        eval_call_token(self, methods, vars, status, fuel)
    }
}

impl WhileToken {
    /// Run this loop against the live environment.
    pub fn evaluate(
        &self,
        methods: &MethodsList,
        vars: &mut VariablesList,
        status: &mut Status,
        fuel: u64,
    ) -> (r: Option<u32>)
        requires
            methods.wf(),
            wf_stackable(Stackable::WhileToken { value: *self }),
    ensures
            ({
                let (st2, res) = sp_eval_while(
                    crate::scopes::view_while_var(self.header_token),
                    crate::scopes::view_body(self.scope),
                    methods@,
                    st_of(old(vars)@, old(status)@),
                    fuel as nat,
                );
                &&& final(vars)@ == st2.env
                &&& final(status)@ == st2.failed
                &&& r == res
            }),
    {
        let cond = match &self.header_token.against_zero_variable {
            Some(n) => n,
            None => {
                proof {
                    assert(false);
                }
                return None;
            },
        };
        let body = match &self.scope {
            Some(b) => &b.stack,
            None => {
                proof {
                    assert(false);
                }
                return None;
            },
        };
        eval_while_inner(cond, body, methods, vars, status, fuel)
    }
}

impl MethodToken {
    /// Execute this method's body in the current frame; the sentinel `0`
    /// stands in when the body ends without a return.
    pub fn execute(
        &self,
        methods: &MethodsList,
        vars: &mut VariablesList,
        status: &mut Status,
        fuel: u64,
    ) -> (v: u32)
        requires
            methods.wf(),
            wf_method(*self),
        ensures
            ({
                let (st2, res) = sp_exec_stmts(
                    view_method(*self).body,
                    0,
                    methods@,
                    st_of(old(vars)@, old(status)@),
                    fuel as nat,
                );
                &&& final(vars)@ == st2.env
                &&& final(status)@ == st2.failed
                &&& v == (match res {
                    Some(x) => x,
                    None => 0u32,
                })
            }),
    {
        let r = exec_body(&self.scope.stack, 0, methods, vars, status, fuel);
        match r {
            Some(v) => v,
            None => 0,
        }
    }
}

// ---------------------------------------------------------------------------
// The body executor and the run driver
// ---------------------------------------------------------------------------

/// Executes one statement list against a method table and a variable
/// environment.
pub struct BodyExecutor {
    pub scope: Vec<Stackable>,
}

impl BodyExecutor {
    /// Execute the statement list in order; a returned value propagates
    /// immediately.
    pub fn execute(
        &self,
        methods: &MethodsList,
        vars: &mut VariablesList,
        status: &mut Status,
        fuel: u64,
    ) -> (r: Option<u32>)
        requires
            methods.wf(),
            wf_stackables(self.scope@),
        ensures
            ({
                let (st2, res) = sp_exec_stmts(
                    view_stackables(self.scope@),
                    0,
                    methods@,
                    st_of(old(vars)@, old(status)@),
                    fuel as nat,
                );
                &&& final(vars)@ == st2.env
                &&& final(status)@ == st2.failed
                &&& r == res
            }),
    {
        exec_body(&self.scope, 0, methods, vars, status, fuel)
    }
}

/// The method table of a parsed program: each method keyed under the name
/// its header declares, in order of definition.
pub open spec fn sp_table(ms: Seq<SMethod>) -> Seq<(Seq<char>, SMethod)>
    decreases ms,
{
    if ms.len() == 0 {
        Seq::empty()
    } else {
        sp_table(ms.drop_last()).push((ms.last().name, ms.last()))
    }
}

proof fn lemma_sp_table(ms: Seq<SMethod>)
    ensures
        sp_table(ms).len() == ms.len(),
        forall|i: int|
            0 <= i < ms.len() ==> sp_table(ms)[i] == ((#[trigger] ms[i]).name, ms[i]),
    decreases ms.len(),
{
    if ms.len() > 0 {
        lemma_sp_table(ms.drop_last());
        assert(forall|k: int| 0 <= k < ms.len() - 1 ==> #[trigger] ms[k] == ms.drop_last()[k]);
        assert(sp_table(ms)[ms.len() - 1] == (ms.last().name, ms.last()));
    }
}

/// The fuel the run driver hands to the evaluator: the largest budget the
/// machine word carries.  A program that exhausts it ends in the degraded
/// error state, the analogue of exhausting the host call stack.
pub open spec fn run_fuel() -> nat {
    u64::MAX as nat
}

/// Owns the method table and the variable environment for one program run.
pub struct RunTime {
    methods: MethodsList,
    variables: VariablesList,
    status: Status,
    body_executor: BodyExecutor,
}

impl RunTime {
    /// The abstract method table.
    pub closed spec fn methods_view(&self) -> Seq<(Seq<char>, SMethod)> {
        self.methods@
    }

    /// The abstract variable environment.
    pub closed spec fn env_view(&self) -> SEnv {
        self.variables@
    }

    /// The abstract error flag.
    pub closed spec fn failed_view(&self) -> bool {
        self.status@
    }

    /// The abstract top-level statement list.
    pub closed spec fn body_view(&self) -> Seq<SStmt> {
        view_stackables(self.body_executor.scope@)
    }

    /// The structural soundness the evaluator relies on.
    pub closed spec fn wf(&self) -> bool {
        self.methods.wf() && wf_stackables(self.body_executor.scope@)
    }

    /// Take over a parsed program: every method is registered in the table
    /// under its declared name, the environment starts empty at depth 0, and
    /// no fault is recorded.
    pub fn new(scope: TopLevelScope) -> (r: RunTime)
        requires
            wf_stackables(scope.stack@),
            wf_methods(scope.methods@),
        ensures
            r.wf(),
            r.methods_view() == sp_table(view_methods(scope.methods@)),
            r.env_view() == SEnv::empty(),
            r.failed_view() == false,
            r.body_view() == view_stackables(scope.stack@),
    {
        let ghost gms = view_methods(scope.methods@);
        let mut methods = MethodsList::new();
        let mut ms = scope.methods;
        let mut i: usize = 0;
        let n0 = ms.len();
        let ghost n = n0 as int;
        proof {
            lemma_view_methods(ms@);
            lemma_sp_table(gms);
            assert(methods@ =~= sp_table(gms.take(0)));
            assert(view_methods(ms@) =~= gms.skip(0));
        }
        while ms.len() > 0
            invariant
                0 <= i <= n,
                n <= usize::MAX,
                i + ms@.len() == n,
                methods.wf(),
                methods@ == sp_table(gms.take(i as int)),
                view_methods(ms@) == gms.skip(i as int),
                gms.len() == n,
                forall|k: int| 0 <= k < ms@.len() ==> wf_method(#[trigger] ms@[k]),
            decreases ms@.len(),
        {
            let ghost oldms = ms@;
            let m = ms.remove(0);
            let ghost gm = m;
            let name = m.header_token.name.value.clone();
            proof {
                assert(ms@ =~= oldms.drop_first());
                lemma_view_methods(oldms);
                lemma_view_methods(ms@);
                assert(view_methods(ms@) =~= view_methods(oldms).drop_first());
                assert(view_methods(oldms).drop_first() =~= gms.skip(i + 1));
                assert(view_method(gm) == view_methods(oldms)[0]);
                assert(view_method(gm) == gms[i as int]);
                assert(name@ == gms[i as int].name);
                assert(gms.take(i + 1).drop_last() =~= gms.take(i as int));
                assert(gms.take(i + 1).last() == gms[i as int]);
            }
            methods.insert(name, m);
            proof {
                assert(methods@ =~= sp_table(gms.take(i + 1)));
            }
            i = i + 1;
        }
        proof {
            assert(gms.take(n as int) =~= gms);
        }
        RunTime {
            methods,
            variables: VariablesList::new(),
            status: Status::new(),
            body_executor: BodyExecutor { scope: scope.stack },
        }
    }
}


/// The abstract pairs of a parameter-binding list.
pub open spec fn view_var_pairs(s: Seq<VariableToken>) -> Seq<(Seq<char>, SExpr)>
    decreases s,
{
    if s.len() == 0 {
        Seq::empty()
    } else {
        seq![(s[0].name.value@, view_expr(s[0].assignment))] + view_var_pairs(s.drop_first())
    }
}

proof fn lemma_view_var_pairs(s: Seq<VariableToken>)
    ensures
        view_var_pairs(s).len() == s.len(),
        forall|i: int|
            0 <= i < s.len() ==> view_var_pairs(s)[i] == ((#[trigger] s[i]).name.value@, view_expr(
                s[i].assignment,
            )),
    decreases s.len(),
{
    if s.len() > 0 {
        lemma_view_var_pairs(s.drop_first());
        assert(forall|k: int| 1 <= k < s.len() ==> #[trigger] s[k] == s.drop_first()[k - 1]);
    }
}

/// Write each given binding at the current depth, in order.
pub open spec fn sp_assign_all(env: SEnv, items: Seq<(Seq<char>, SExpr)>, i: int) -> SEnv
    decreases items.len() - i,
{
    if i < 0 || i >= items.len() {
        env
    } else {
        sp_assign_all(sp_assign(env, items[i].0, items[i].1), items, i + 1)
    }
}

impl RunTime {
    /// Execute the top-level statement list of the program.
    pub fn run(&mut self)
        requires
            old(self).wf(),
        ensures
            final(self).wf(),
            final(self).methods_view() == old(self).methods_view(),
            final(self).body_view() == old(self).body_view(),
            ({
                let (st2, r) = sp_exec_stmts(
                    old(self).body_view(),
                    0,
                    old(self).methods_view(),
                    st_of(old(self).env_view(), old(self).failed_view()),
                    run_fuel(),
                );
                final(self).env_view() == st2.env && final(self).failed_view() == st2.failed
            }),
    {
        let _ = exec_body(
            &self.body_executor.scope,
            0,
            &self.methods,
            &mut self.variables,
            &mut self.status,
            u64::MAX,
        );
    }

    /// The definition the table holds under a name, if any.
    pub fn get_method_token(&self, method_name: &str) -> (r: Option<&MethodToken>)
        ensures
            match r {
                Some(m) => sp_lookup_method(self.methods_view(), method_name@) == Some(
                    view_method(*m),
                ) && (self.wf() ==> wf_method(*m)),
                None => sp_lookup_method(self.methods_view(), method_name@) is None,
            },
    {
        self.methods.get(method_name)
    }

    /// Execute the body of the named method in the current frame; an unknown
    /// name quietly yields the sentinel `0`.
    pub fn get_value_from_method_name(&mut self, method_name: &str) -> (v: u32)
        requires
            old(self).wf(),
        ensures
            final(self).wf(),
            final(self).methods_view() == old(self).methods_view(),
            final(self).body_view() == old(self).body_view(),
            ({
                match sp_lookup_method(old(self).methods_view(), method_name@) {
                    None => v == 0 && final(self).env_view() == old(self).env_view()
                        && final(self).failed_view() == old(self).failed_view(),
                    Some(md) => {
                        let (st2, res) = sp_exec_stmts(
                            md.body,
                            0,
                            old(self).methods_view(),
                            st_of(old(self).env_view(), old(self).failed_view()),
                            run_fuel(),
                        );
                        &&& final(self).env_view() == st2.env
                        &&& final(self).failed_view() == st2.failed
                        &&& v == (match res {
                            Some(x) => x,
                            None => 0u32,
                        })
                    },
                }
            }),
    {
        let mt = match self.methods.get(method_name) {
            Some(mt) => mt,
            None => {
                return 0;
            },
        };
        let r = exec_body(
            &mt.scope.stack,
            0,
            &self.methods,
            &mut self.variables,
            &mut self.status,
            u64::MAX,
        );
        match r {
            Some(v) => v,
            None => 0,
        }
    }

    /// Read a variable at the current depth and evaluate what it holds; an
    /// unbound name is a fault and yields the sentinel `0`.
    pub fn get_value_from_current_name(&mut self, variable_name: &str) -> (v: u32)
        requires
            old(self).wf(),
        ensures
            final(self).wf(),
            final(self).methods_view() == old(self).methods_view(),
            final(self).body_view() == old(self).body_view(),
            ({
                let (st2, val) = sp_eval_expr(
                    SExpr::Var(variable_name@),
                    old(self).methods_view(),
                    st_of(old(self).env_view(), old(self).failed_view()),
                    run_fuel(),
                );
                &&& final(self).env_view() == st2.env
                &&& final(self).failed_view() == st2.failed
                &&& v == val
            }),
    {
        let ce = match self.variables.find(variable_name) {
            Some(e) => e,
            None => {
                self.status.throw("the variable is not defined at the current depth");
                return 0;
            },
        };
        eval_assignable(&ce, &self.methods, &mut self.variables, &mut self.status, u64::MAX - 1)
    }

    /// Bring parameter bindings into scope: step into a fresh frame and
    /// write each binding at the new depth.
    pub fn push_parameter_variables(&mut self, variables: Vec<VariableToken>)
        requires
            old(self).wf(),
            old(self).env_view().depth < u32::MAX,
        ensures
            final(self).wf(),
            final(self).methods_view() == old(self).methods_view(),
            final(self).body_view() == old(self).body_view(),
            final(self).failed_view() == old(self).failed_view(),
            final(self).env_view() == sp_assign_all(
                SEnv {
                    binds: old(self).env_view().binds,
                    depth: (old(self).env_view().depth + 1) as u32,
                },
                view_var_pairs(variables@),
                0,
            ),
    {
        self.variables.enter_frame();
        let ghost env1 = self.variables@;
        let ghost gpairs = view_var_pairs(variables@);
        proof {
            lemma_view_var_pairs(variables@);
        }
        let mut i: usize = 0;
        let n = variables.len();
        while i < n
            invariant
                0 <= i <= n,
                n == variables@.len(),
                self.methods == old(self).methods,
                self.body_executor == old(self).body_executor,
                self.status == old(self).status,
                gpairs == view_var_pairs(variables@),
                gpairs.len() == n,
                forall|k: int|
                    0 <= k < n ==> gpairs[k] == ((#[trigger] variables@[k]).name.value@, view_expr(
                        variables@[k].assignment,
                    )),
                sp_assign_all(env1, gpairs, 0) == sp_assign_all(self.variables@, gpairs, i as int),
            decreases n - i,
        {
            let tok = variables[i].clone();
            self.variables.add_or_update(tok);
            i = i + 1;
        }
    }

    /// Drop the bindings of the current frame and step back to the caller's
    /// depth.
    pub fn pop_variables(&mut self)
        requires
            old(self).wf(),
        ensures
            final(self).wf(),
            final(self).methods_view() == old(self).methods_view(),
            final(self).body_view() == old(self).body_view(),
            final(self).failed_view() == old(self).failed_view(),
            final(self).env_view() == sp_pop_frame(old(self).env_view()),
    {
        self.variables.pop_variables();
        self.variables.exit_frame();
    }

    /// The live variable environment.
    pub fn get_variable_list(&self) -> (r: &VariablesList)
        ensures
            r@ == self.env_view(),
    {
        &self.variables
    }

    /// Whether any fault has been recorded during this run.
    pub fn get_status(&self) -> (r: bool)
        ensures
            r == self.failed_view(),
    {
        self.status.get_status()
    }

    /// The message of the most recent fault.
    pub fn get_message(&self) -> (r: &String) {
        self.status.get_message()
    }
}

} // verus!
