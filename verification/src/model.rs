//! The mathematical model: ghost-level abstract syntax for expressions,
//! statements and methods, the depth-tagged variable environment, and the
//! primitive environment operations the runtime contracts are stated over.
//!
//! Names are sequences of characters; expressions are stored in bindings
//! unevaluated and are re-evaluated on every read, so a binding holds an
//! expression, not a number.

use vstd::prelude::*;

verus! {

broadcast use vstd::seq::group_seq_axioms;

/// An expression: a literal, a variable read, or a method call.
pub enum SExpr {
    Lit(u32),
    Var(Seq<char>),
    Call(Seq<char>, Seq<SExpr>),
}

/// A compound-update operator.
#[derive(PartialEq, Eq, Structural)]
pub enum SOp {
    Add,
    Sub,
}

/// A statement of the tree the parser produces.
pub enum SStmt {
    /// `name = expr;` — stores the expression at the current depth.
    Assign(Seq<char>, SExpr),
    /// `name += expr;` / `name -= expr;` — rewrites the innermost live
    /// binding of the name to a literal.
    Compound(Seq<char>, SOp, SExpr),
    /// `name(args);` as a bare statement.
    CallStmt(Seq<char>, Seq<SExpr>),
    /// `while name != 0:` with its body.
    While(Seq<char>, Seq<SStmt>),
    /// `return;` or `return expr;`.
    Return(Option<SExpr>),
}

/// A method definition: name, positional parameter names, whether the
/// declared kind is `num`, and the body.
pub struct SMethod {
    pub name: Seq<char>,
    pub params: Seq<Seq<char>>,
    pub is_num: bool,
    pub body: Seq<SStmt>,
}

/// One binding of the variable environment.
pub struct SBind {
    pub name: Seq<char>,
    pub expr: SExpr,
    pub depth: u32,
}

/// The variable environment: an ordered list of depth-tagged bindings plus
/// the current call depth.
pub struct SEnv {
    pub binds: Seq<SBind>,
    pub depth: u32,
}

/// The mutable evaluation state: the environment and the error flag of the
/// status sink.
pub struct SState {
    pub env: SEnv,
    pub failed: bool,
}

impl SEnv {
    /// The empty environment at depth 0.
    pub open spec fn empty() -> SEnv {
        SEnv { binds: Seq::empty(), depth: 0 }
    }
}

/// The state with the error flag raised.
pub open spec fn sp_fail(st: SState) -> SState {
    SState { env: st.env, failed: true }
}

// ---------------------------------------------------------------------------
// Environment operations
// ---------------------------------------------------------------------------

/// The first index holding `name` at depth exactly `depth`, if any.
pub open spec fn sp_find_at_depth(binds: Seq<SBind>, name: Seq<char>, depth: u32) -> Option<int>
    decreases binds.len(),
{
    if binds.len() == 0 {
        None
    } else if binds[0].name == name && binds[0].depth == depth {
        Some(0)
    } else {
        match sp_find_at_depth(binds.drop_first(), name, depth) {
            Some(j) => Some(j + 1),
            None => None,
        }
    }
}

/// The binding visible for a plain read: the name at exactly the current
/// depth; bindings at other depths are invisible.
pub open spec fn sp_lookup_cur(env: SEnv, name: Seq<char>) -> Option<SExpr> {
    match sp_find_at_depth(env.binds, name, env.depth) {
        Some(j) => Some(env.binds[j].expr),
        None => None,
    }
}

/// Write at the current depth: replace in place when a binding of the name
/// exists at exactly this depth, otherwise append a new binding.
pub open spec fn sp_assign(env: SEnv, name: Seq<char>, e: SExpr) -> SEnv {
    match sp_find_at_depth(env.binds, name, env.depth) {
        Some(j) => SEnv {
            binds: env.binds.update(j, SBind { name, expr: e, depth: env.depth }),
            depth: env.depth,
        },
        None => SEnv {
            binds: env.binds.push(SBind { name, expr: e, depth: env.depth }),
            depth: env.depth,
        },
    }
}

/// The index of the innermost live binding of `name`: among all bindings of
/// the name, the first one carrying the greatest depth.
pub open spec fn sp_best_index(binds: Seq<SBind>, name: Seq<char>) -> Option<int>
    decreases binds.len(),
{
    if binds.len() == 0 {
        None
    } else {
        let rest = sp_best_index(binds.drop_first(), name);
        if binds[0].name == name {
            match rest {
                Some(j) => if binds[j + 1].depth > binds[0].depth {
                    Some(j + 1)
                } else {
                    Some(0)
                },
                None => Some(0),
            }
        } else {
            match rest {
                Some(j) => Some(j + 1),
                None => None,
            }
        }
    }
}

/// Remove every binding at exactly the current depth (the environment's own
/// pop; the depth counter itself is managed by the caller).
pub open spec fn sp_drop_depth(binds: Seq<SBind>, depth: u32) -> Seq<SBind>
    decreases binds.len(),
{
    if binds.len() == 0 {
        Seq::empty()
    } else {
        let rest = sp_drop_depth(binds.drop_first(), depth);
        if binds[0].depth == depth {
            rest
        } else {
            seq![binds[0]] + rest
        }
    }
}

/// Whether a binding carries the given name at the given depth.
pub open spec fn bind_matches(b: SBind, name: Seq<char>, depth: u32) -> bool {
    b.name == name && b.depth == depth
}

/// Result of `sp_find_at_depth`: a valid index holding the name at the
/// depth, and the first such.
pub proof fn lemma_find_at_depth(binds: Seq<SBind>, name: Seq<char>, depth: u32)
    ensures
        match sp_find_at_depth(binds, name, depth) {
            Some(j) => 0 <= j < binds.len() && bind_matches(binds[j], name, depth) && forall|k: int|
                0 <= k < j ==> !bind_matches(#[trigger] binds[k], name, depth),
            None => forall|k: int|
                0 <= k < binds.len() ==> !bind_matches(#[trigger] binds[k], name, depth),
        },
    decreases binds.len(),
{
    if binds.len() > 0 {
        let rest = binds.drop_first();
        lemma_find_at_depth(rest, name, depth);
        assert(forall|k: int| 1 <= k < binds.len() ==> #[trigger] binds[k] == rest[k - 1]);
    }
}

/// Result of `sp_best_index`: a valid index holding the name, of maximal
/// depth among the bindings of the name.
pub proof fn lemma_best_index(binds: Seq<SBind>, name: Seq<char>)
    ensures
        match sp_best_index(binds, name) {
            Some(j) => 0 <= j < binds.len() && binds[j].name == name && forall|k: int|
                0 <= k < binds.len() && (#[trigger] binds[k]).name == name ==> binds[k].depth
                <= binds[j].depth,
            None => forall|k: int| 0 <= k < binds.len() ==> (#[trigger] binds[k]).name != name,
        },
    decreases binds.len(),
{
    if binds.len() > 0 {
        let rest = binds.drop_first();
        lemma_best_index(rest, name);
        assert(forall|k: int| 1 <= k < binds.len() ==> #[trigger] binds[k] == rest[k - 1]);
    }
}

} // verus!
