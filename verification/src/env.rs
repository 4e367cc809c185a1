//! The variable environment and the method table.
//!
//! The environment is a depth-tagged list of bindings plus the current call
//! depth.  A plain write touches exactly the current depth; a plain read
//! sees exactly the current depth; a compound update targets the innermost
//! live binding of the name across all depths; popping a frame removes every
//! binding of the current depth in bulk.

use vstd::prelude::*;
use vstd::string::*;
use crate::model::{
    SExpr, SBind, SEnv, sp_find_at_depth, sp_lookup_cur, sp_assign, sp_best_index, sp_drop_depth,
    lemma_find_at_depth, lemma_best_index, bind_matches,
};
use crate::semantics::{sp_lookup_method};
use crate::tokens::{AssignableToken, VariableToken, view_expr};
use crate::scopes::{MethodToken, view_method, wf_method};
use crate::model::SMethod;

verus! {

broadcast use vstd::seq::group_seq_axioms, vstd::std_specs::vec::group_vec_axioms;

// ---------------------------------------------------------------------------
// The variable environment
// ---------------------------------------------------------------------------

/// The abstract binding a stored pair stands for.
pub open spec fn view_bind(p: (VariableToken, u32)) -> SBind {
    SBind { name: p.0.name.value@, expr: view_expr(p.0.assignment), depth: p.1 }
}

/// The abstract bindings of the stored list.
pub open spec fn view_binds(s: Seq<(VariableToken, u32)>) -> Seq<SBind>
    decreases s,
{
    if s.len() == 0 {
        Seq::empty()
    } else {
        seq![view_bind(s[0])] + view_binds(s.drop_first())
    }
}

/// `view_binds` maps element-wise.
pub proof fn lemma_view_binds(s: Seq<(VariableToken, u32)>)
    ensures
        view_binds(s).len() == s.len(),
        forall|i: int| 0 <= i < s.len() ==> view_binds(s)[i] == view_bind(s[i]),
    decreases s.len(),
{
    if s.len() > 0 {
        lemma_view_binds(s.drop_first());
    }
}

/// The variable environment: depth-tagged live bindings, and the current
/// call depth.
pub struct VariablesList {
    tokens: Vec<(VariableToken, u32)>,
    pub current_indent_level: u32,
}

impl View for VariablesList {
    type V = SEnv;

    closed spec fn view(&self) -> SEnv {
        SEnv { binds: view_binds(self.tokens@), depth: self.current_indent_level }
    }
}

impl VariablesList {
    /// An empty environment at depth 0.
    pub fn new() -> (r: VariablesList)
        ensures
            r@ == SEnv::empty(),
    {
        let r = VariablesList { tokens: Vec::new(), current_indent_level: 0 };
        proof {
            assert(r@ =~= SEnv::empty());
        }
        r
    }

    /// The stored bindings, for read-only walks.
    pub fn entries(&self) -> (r: &Vec<(VariableToken, u32)>)
        ensures
            view_binds(r@) == self@.binds,
            r@.len() == self@.binds.len(),
    {
        proof {
            lemma_view_binds(self.tokens@);
        }
        &self.tokens
    }

    /// The first index binding `name` at exactly the current depth.
    fn find_index_at_current(&self, name: &str) -> (r: Option<usize>)
        ensures
            match r {
                Some(j) => j < self@.binds.len() && sp_find_at_depth(
                    self@.binds,
                    name@,
                    self@.depth,
                ) == Some(j as int),
                None => sp_find_at_depth(self@.binds, name@, self@.depth) is None,
            },
    {
        proof {
            lemma_view_binds(self.tokens@);
            lemma_find_at_depth(self@.binds, name@, self@.depth);
        }
        let n = self.tokens.len();
        let mut i: usize = 0;
        while i < n
            invariant
                0 <= i <= n,
                forall|k: int|
                    0 <= k < i ==> !bind_matches(#[trigger] self@.binds[k], name@, self@.depth),
            decreases n - i,
        {
            let hit = crate::lexis::str_eq(self.tokens[i].0.name.value.as_str(), name)
                && self.tokens[i].1 == self.current_indent_level;
            proof {
                assert(self@.binds[i as int] == view_bind(self.tokens@[i as int]));
            }
            if hit {
                proof {
                    assert(bind_matches(self@.binds[i as int], name@, self@.depth));
                }
                return Some(i);
            }
            i = i + 1;
        }
        None
    }

    /// Write at the current depth: replace the binding of the name at
    /// exactly this depth in place, or append a new one.  The result says
    /// whether a new binding was appended.
    pub fn add_or_update(&mut self, token: VariableToken) -> (appended: bool)
        ensures
            final(self)@ == sp_assign(old(self)@, token.name.value@, view_expr(token.assignment)),
            appended == (sp_find_at_depth(old(self)@.binds, token.name.value@, old(self)@.depth)
                is None),
    {
        let ghost gtok = token;
        proof {
            lemma_view_binds(self.tokens@);
            lemma_find_at_depth(self@.binds, token.name.value@, self@.depth);
        }
        match self.find_index_at_current(token.name.value.as_str()) {
            Some(j) => {
                let depth = self.tokens[j].1;
                self.tokens.remove(j);
                self.tokens.insert(j, (token, depth));
                proof {
                    let ob = view_binds(old(self).tokens@);
                    lemma_view_binds(old(self).tokens@);
                    lemma_view_binds(self.tokens@);
                    assert(self.tokens@ =~= old(self).tokens@.update(
                        j as int,
                        (gtok, old(self).current_indent_level),
                    ));
                    assert(view_binds(self.tokens@) =~= ob.update(
                        j as int,
                        SBind {
                            name: gtok.name.value@,
                            expr: view_expr(gtok.assignment),
                            depth: old(self).current_indent_level,
                        },
                    ));
                    assert(self@ =~= sp_assign(
                        old(self)@,
                        gtok.name.value@,
                        view_expr(gtok.assignment),
                    ));
                }
                false
            },
            None => {
                let depth = self.current_indent_level;
                self.tokens.push((token, depth));
                proof {
                    lemma_view_binds(old(self).tokens@);
                    lemma_view_binds(self.tokens@);
                    assert(view_binds(self.tokens@) =~= view_binds(old(self).tokens@).push(
                        SBind {
                            name: gtok.name.value@,
                            expr: view_expr(gtok.assignment),
                            depth: old(self).current_indent_level,
                        },
                    ));
                    assert(self@ =~= sp_assign(
                        old(self)@,
                        gtok.name.value@,
                        view_expr(gtok.assignment),
                    ));
                }
                true
            },
        }
    }

    /// A copy of the expression bound to the name at exactly the current
    /// depth, when there is one.
    pub fn find(&self, name: &str) -> (r: Option<AssignableToken>)
        ensures
            match r {
                Some(e) => sp_lookup_cur(self@, name@) == Some(view_expr(e)),
                None => sp_lookup_cur(self@, name@) is None,
            },
    {
        match self.find_index_at_current(name) {
            Some(j) => {
                proof {
                    lemma_view_binds(self.tokens@);
                }
                Some(self.tokens[j].0.assignment.clone())
            },
            None => None,
        }
    }

    /// The index of the innermost live binding of the name, across all
    /// depths.
    pub fn best_index(&self, name: &str) -> (r: Option<usize>)
        ensures
            match r {
                Some(j) => j < self@.binds.len() && sp_best_index(self@.binds, name@) == Some(
                    j as int,
                ),
                None => sp_best_index(self@.binds, name@) is None,
            },
    {
        proof {
            lemma_view_binds(self.tokens@);
        }
        let n = self.tokens.len();
        let mut best: Option<usize> = None;
        let mut i: usize = 0;
        while i < n
            invariant
                0 <= i <= n,
                n == self.tokens@.len(),
                match best {
                    Some(j) => j < i && sp_best_index(self@.binds.take(i as int), name@) == Some(
                        j as int,
                    ),
                    None => sp_best_index(self@.binds.take(i as int), name@) is None,
                },
            decreases n - i,
        {
            proof {
                lemma_best_index_extend(self@.binds, name@, i as int);
            }
            let is_name = crate::lexis::str_eq(self.tokens[i].0.name.value.as_str(), name);
            proof {
                assert(self@.binds[i as int] == view_bind(self.tokens@[i as int]));
            }
            if is_name {
                match best {
                    Some(j) => {
                        if self.tokens[i].1 > self.tokens[j].1 {
                            best = Some(i);
                        }
                    },
                    None => {
                        best = Some(i);
                    },
                }
            }
            i = i + 1;
        }
        proof {
            assert(self@.binds.take(n as int) =~= self@.binds);
        }
        best
    }

    /// The expression of the binding at an index, copied.
    pub fn expr_clone_at(&self, j: usize) -> (r: AssignableToken)
        requires
            j < self@.binds.len(),
        ensures
            view_expr(r) == self@.binds[j as int].expr,
    {
        proof {
            lemma_view_binds(self.tokens@);
        }
        self.tokens[j].0.assignment.clone()
    }

    /// Rewrite the binding at an index to a literal, in place.
    pub fn set_literal_at(&mut self, j: usize, v: u32)
        requires
            j < old(self)@.binds.len(),
        ensures
            final(self)@.depth == old(self)@.depth,
            final(self)@.binds == old(self)@.binds.update(
                j as int,
                SBind {
                    name: old(self)@.binds[j as int].name,
                    expr: SExpr::Lit(v),
                    depth: old(self)@.binds[j as int].depth,
                },
            ),
    {
        proof {
            lemma_view_binds(self.tokens@);
        }
        let (mut tok, depth) = self.tokens.remove(j);
        tok.set_assignable_token(
            AssignableToken::Digit { value: crate::lexis::DigitToken::new(v) },
        );
        self.tokens.insert(j, (tok, depth));
        proof {
            lemma_view_binds(self.tokens@);
            lemma_view_binds(old(self).tokens@);
            assert(self.tokens@ =~= old(self).tokens@.update(j as int, self.tokens@[j as int]));
            assert(view_binds(self.tokens@) =~= view_binds(old(self).tokens@).update(
                j as int,
                SBind {
                    name: old(self)@.binds[j as int].name,
                    expr: SExpr::Lit(v),
                    depth: old(self)@.binds[j as int].depth,
                },
            ));
        }
    }

    /// Step into a fresh call frame: the depth counter grows by one.
    pub fn enter_frame(&mut self)
        requires
            old(self)@.depth < u32::MAX,
        ensures
            final(self)@.binds == old(self)@.binds,
            final(self)@.depth == old(self)@.depth + 1,
    {
        self.current_indent_level = self.current_indent_level + 1;
    }

    /// Step back to the caller's frame: the depth counter shrinks by one,
    /// stopping at zero.
    pub fn exit_frame(&mut self)
        ensures
            final(self)@.binds == old(self)@.binds,
            final(self)@.depth == (if old(self)@.depth > 0 {
                old(self)@.depth - 1
            } else {
                0
            }),
    {
        if self.current_indent_level > 0 {
            self.current_indent_level = self.current_indent_level - 1;
        }
    }

    /// The number of live bindings.
    pub fn len(&self) -> (r: usize)
        ensures
            r == self@.binds.len(),
    {
        proof {
            lemma_view_binds(self.tokens@);
        }
        self.tokens.len()
    }

    /// The current call depth.
    pub fn depth(&self) -> (r: u32)
        ensures
            r == self@.depth,
    {
        self.current_indent_level
    }

    /// Remove every binding at exactly the current depth.  The depth counter
    /// itself is not changed.
    pub fn pop_variables(&mut self)
        ensures
            final(self)@.binds == sp_drop_depth(old(self)@.binds, old(self)@.depth),
            final(self)@.depth == old(self)@.depth,
    {
        let depth = self.current_indent_level;
        let mut kept: Vec<(VariableToken, u32)> = Vec::new();
        let n = self.tokens.len();
        let mut i: usize = 0;
        proof {
            lemma_view_binds(self.tokens@);
            assert(view_binds(kept@) =~= Seq::<SBind>::empty());
            assert(self@.binds.take(0) =~= Seq::<SBind>::empty());
            assert(sp_drop_depth(self@.binds.take(0), depth) =~= Seq::<SBind>::empty());
        }
        while i < n
            invariant
                0 <= i <= n,
                n == self.tokens@.len(),
                depth == self.current_indent_level,
                view_binds(kept@) == sp_drop_depth(self@.binds.take(i as int), depth),
            decreases n - i,
        {
            proof {
                assert(self@.binds.take(i + 1).drop_last() =~= self@.binds.take(i as int));
                assert(self@.binds.take(i + 1).last() == self@.binds[i as int]);
                lemma_drop_depth_snoc(self@.binds.take(i as int), self@.binds[i as int], depth);
                assert(self@.binds.take(i as int).push(self@.binds[i as int]) =~= self@.binds.take(
                    i + 1,
                ));
            }
            let ghost oldkept = kept@;
            if self.tokens[i].1 != depth {
                let entry = (self.tokens[i].0.clone(), self.tokens[i].1);
                proof {
                    assert(view_bind(entry) == view_bind(self.tokens@[i as int]));
                }
                kept.push(entry);
                proof {
                    lemma_view_binds(oldkept);
                    lemma_view_binds(kept@);
                    assert(view_binds(kept@) =~= view_binds(oldkept).push(
                        view_bind(self.tokens@[i as int]),
                    ));
                }
            }
            i = i + 1;
        }
        proof {
            assert(self@.binds.take(n as int) =~= self@.binds);
        }
        self.tokens = kept;
    }
}

/// Dropping a depth from a list extended by one binding keeps or drops that
/// binding by its depth.
proof fn lemma_drop_depth_snoc(s: Seq<SBind>, x: SBind, depth: u32)
    ensures
        sp_drop_depth(s.push(x), depth) == (if x.depth == depth {
            sp_drop_depth(s, depth)
        } else {
            sp_drop_depth(s, depth).push(x)
        }),
    decreases s.len(),
{
    if s.len() == 0 {
        assert(s.push(x).drop_first() =~= Seq::<SBind>::empty());
        if x.depth != depth {
            assert(seq![x] + sp_drop_depth(Seq::<SBind>::empty(), depth) =~= sp_drop_depth(
                s,
                depth,
            ).push(x));
        }
    } else {
        assert(s.push(x).drop_first() =~= s.drop_first().push(x));
        assert(s.push(x)[0] == s[0]);
        lemma_drop_depth_snoc(s.drop_first(), x, depth);
        if s[0].depth != depth && x.depth != depth {
            assert(seq![s[0]] + sp_drop_depth(s.drop_first(), depth).push(x) =~= (seq![s[0]]
                + sp_drop_depth(s.drop_first(), depth)).push(x));
        }
    }
}

/// Extending the scanned prefix by one entry updates the innermost-binding
/// index as the scan does./// Extending the scanned prefix by one entry updates the innermost-binding
/// index as the scan does.
proof fn lemma_best_index_extend(binds: Seq<SBind>, name: Seq<char>, i: int)
    requires
        0 <= i < binds.len(),
    ensures
        sp_best_index(binds.take(i + 1), name) == ({
            let prev = sp_best_index(binds.take(i), name);
            if binds[i].name == name {
                match prev {
                    Some(j) => if 0 <= j < binds.len() && binds[i].depth > binds[j].depth {
                        Some(i)
                    } else {
                        prev
                    },
                    None => Some(i),
                }
            } else {
                prev
            }
        }),
    decreases binds.len(),
{
    assert(binds.take(i + 1).last() == binds[i]);
    assert(binds.take(i + 1).drop_last() =~= binds.take(i));
    lemma_best_index_take(binds.take(i + 1), binds.take(i), name);
    lemma_best_index(binds.take(i), name);
}

/// The innermost-binding index over `s.push(x)` in terms of the one over
/// `s`: a strictly deeper binding of the name takes over, ties keep the
/// earlier index.
proof fn lemma_best_index_take(s1: Seq<SBind>, s: Seq<SBind>, name: Seq<char>)
    requires
        s1.len() == s.len() + 1,
        s1.drop_last() == s,
    ensures
        sp_best_index(s1, name) == ({
            let x = s1.last();
            let prev = sp_best_index(s, name);
            if x.name == name {
                match prev {
                    Some(j) => if 0 <= j < s.len() && x.depth > s[j].depth {
                        Some(s.len() as int)
                    } else {
                        prev
                    },
                    None => Some(s.len() as int),
                }
            } else {
                prev
            }
        }),
    decreases s.len(),
{
    lemma_best_index(s, name);
    lemma_best_index(s1, name);
    if s.len() == 0 {
    } else {
        assert(s1.drop_first().drop_last() =~= s.drop_first());
        assert(s1.drop_first().last() == s1.last());
        lemma_best_index_take(s1.drop_first(), s.drop_first(), name);
        lemma_best_index(s.drop_first(), name);
        lemma_best_index(s1.drop_first(), name);
    }
}

// ---------------------------------------------------------------------------
// The method table
// ---------------------------------------------------------------------------

/// The method table: named definitions; redefining a name silently
/// overwrites the earlier definition.
pub struct MethodsList {
    tokens: Vec<(String, MethodToken)>,
}

/// The abstract entries of the table.
pub open spec fn view_method_entries(s: Seq<(String, MethodToken)>) -> Seq<(Seq<char>, SMethod)>
    decreases s,
{
    if s.len() == 0 {
        Seq::empty()
    } else {
        seq![(s[0].0@, view_method(s[0].1))] + view_method_entries(s.drop_first())
    }
}

pub proof fn lemma_view_method_entries(s: Seq<(String, MethodToken)>)
    ensures
        view_method_entries(s).len() == s.len(),
        forall|i: int|
            0 <= i < s.len() ==> view_method_entries(s)[i] == ((#[trigger] s[i]).0@, view_method(
                s[i].1,
            )),
    decreases s.len(),
{
    if s.len() > 0 {
        lemma_view_method_entries(s.drop_first());
        assert(forall|k: int| 1 <= k < s.len() ==> #[trigger] s[k] == s.drop_first()[k - 1]);
    }
}

impl View for MethodsList {
    type V = Seq<(Seq<char>, SMethod)>;

    closed spec fn view(&self) -> Seq<(Seq<char>, SMethod)> {
        view_method_entries(self.tokens@)
    }
}

impl MethodsList {
    /// Every stored definition is well-formed.
    pub closed spec fn wf(&self) -> bool {
        forall|i: int| 0 <= i < self.tokens@.len() ==> wf_method((#[trigger] self.tokens@[i]).1)
    }

    /// An empty table.
    pub fn new() -> (r: MethodsList)
        ensures
            r@ == Seq::<(Seq<char>, SMethod)>::empty(),
            r.wf(),
    {
        let r = MethodsList { tokens: Vec::new() };
        proof {
            assert(r@ =~= Seq::<(Seq<char>, SMethod)>::empty());
        }
        r
    }

    /// Define or redefine a method under a name.
    pub fn insert(&mut self, index: String, value: MethodToken)
        requires
            old(self).wf(),
            wf_method(value),
        ensures
            final(self)@ == old(self)@.push((index@, view_method(value))),
            final(self).wf(),
    {
        let ghost gi = index@;
        let ghost gv = view_method(value);
        let ghost gi_t = index;
        let ghost gv_t = value;
        self.tokens.push((index, value));
        proof {
            lemma_view_method_entries(old(self).tokens@);
            lemma_view_method_entries(self.tokens@);
            assert(forall|i: int|
                0 <= i < old(self).tokens@.len() ==> self.tokens@[i] == #[trigger] old(
                    self,
                ).tokens@[i]);
            assert(self.tokens@.last() == (gi_t, gv_t));
            assert(self@.len() == old(self)@.len() + 1);
            assert(self.tokens@[old(self).tokens@.len() as int] == (gi_t, gv_t));
            assert(self@[old(self).tokens@.len() as int] == (gi_t@, view_method(gv_t)));
            assert(gi_t@ == gi);
            assert(view_method(gv_t) == gv);
            assert forall|i: int| 0 <= i < old(self)@.len() implies self@[i] == old(self)@[i] by {
                assert(self.tokens@[i] == old(self).tokens@[i]);
            }
            assert(self@ =~= old(self)@.push((gi, gv)));
        }
    }

    /// Look a method up by name: the most recent definition under the name.
    pub fn get(&self, index: &str) -> (r: Option<&MethodToken>)
        ensures
            match r {
                Some(m) => sp_lookup_method(self@, index@) == Some(view_method(*m)) && (self.wf()
                    ==> wf_method(*m)),
                None => sp_lookup_method(self@, index@) is None,
            },
    {
        let n = self.tokens.len();
        proof {
            lemma_view_method_entries(self.tokens@);
            assert(self@.take(n as int) =~= self@);
        }
        let mut i: usize = n;
        while i > 0
            invariant
                0 <= i <= n,
                n == self.tokens@.len(),
                sp_lookup_method(self@, index@) == sp_lookup_method(self@.take(i as int), index@),
            decreases i,
        {
            proof {
                lemma_lookup_method_step(self@, index@, i as int);
            }
            if crate::lexis::str_eq(self.tokens[i - 1].0.as_str(), index) {
                proof {
                    assert(self@[i - 1] == (self.tokens@[i - 1].0@, view_method(
                        self.tokens@[i - 1].1,
                    )));
                    assert(self@.take(i as int).last() == self@[i - 1]);
                }
                return Some(&self.tokens[i - 1].1);
            }
            proof {
                assert(self@.take(i as int).last() == self@[i - 1]);
                assert(self@.take(i as int).drop_last() =~= self@.take(i - 1));
            }
            i = i - 1;
        }
        proof {
            assert(self@.take(0) =~= Seq::<(Seq<char>, SMethod)>::empty());
        }
        None
    }
}

/// One step of the backwards method lookup.
proof fn lemma_lookup_method_step(ms: Seq<(Seq<char>, SMethod)>, name: Seq<char>, i: int)
    requires
        1 <= i <= ms.len(),
    ensures
        sp_lookup_method(ms.take(i), name) == if ms[i - 1].0 == name {
            Some(ms[i - 1].1)
        } else {
            sp_lookup_method(ms.take(i - 1), name)
        },
{
    assert(ms.take(i).last() == ms[i - 1]);
    assert(ms.take(i).drop_last() =~= ms.take(i - 1));
}

} // verus!
