//! Token grammar: the expression tokens (names, literals, method calls) and
//! the statement-level recognizers for assignments, compound updates, while
//! headers, method headers, returns and escape markers.
//!
//! Each exec recognizer mirrors a spec-level parse function exactly; the
//! second component of a spec parse result records whether the recognizer
//! reports a fault on the status sink.

use vstd::prelude::*;
use vstd::string::*;
use crate::lexis;
use crate::lexis::{NameToken, DigitToken, TypeToken};
use crate::model::{SExpr, SOp};
use crate::status::Status;
use crate::code_line::CodeLine;

verus! {

broadcast use vstd::seq::group_seq_axioms, vstd::std_specs::vec::group_vec_axioms;

// ---------------------------------------------------------------------------
// Expression tokens and their views
// ---------------------------------------------------------------------------

/// A method-call expression: a callee name and its argument expressions.
pub struct MethodCallToken {
    pub parameters: Vec<AssignableToken>,
    pub name: NameToken,
}

/// Anything that can stand on the right of an assignment: a variable read,
/// an integer literal, or a method call.
pub enum AssignableToken {
    Name { value: NameToken },
    Digit { value: DigitToken },
    MethodCall { value: MethodCallToken },
}

impl Clone for AssignableToken {
    /// A deep copy that stands for the same abstract expression.
    fn clone(&self) -> (r: Self)
        ensures
            view_expr(r) == view_expr(*self),
        decreases self,
    {
        match self {
            AssignableToken::Name { value } => AssignableToken::Name { value: value.clone() },
            AssignableToken::Digit { value } => AssignableToken::Digit { value: value.clone() },
            AssignableToken::MethodCall { value } => AssignableToken::MethodCall {
                value: value.clone(),
            },
        }
    }
}

impl Clone for MethodCallToken {
    /// A deep copy that stands for the same abstract call.
    fn clone(&self) -> (r: Self)
        ensures
            r.name.value@ == self.name.value@,
            view_exprs(r.parameters@) == view_exprs(self.parameters@),
        decreases self,
    {
        let mut parameters: Vec<AssignableToken> = Vec::new();
        let mut i: usize = 0;
        while i < self.parameters.len()
            invariant
                0 <= i <= self.parameters@.len(),
                parameters@.len() == i,
                forall|k: int|
                    0 <= k < i ==> view_expr(#[trigger] parameters@[k]) == view_expr(
                        self.parameters@[k],
                    ),
            decreases self.parameters@.len() - i,
        {
            parameters.push(self.parameters[i].clone());
            i = i + 1;
        }
        proof {
            lemma_view_exprs(parameters@);
            lemma_view_exprs(self.parameters@);
            assert(view_exprs(parameters@) =~= view_exprs(self.parameters@));
        }
        MethodCallToken { parameters, name: self.name.clone() }
    }
}

/// The abstract expression an expression token stands for.
pub open spec fn view_expr(e: AssignableToken) -> SExpr
    decreases e,
{
    match e {
        AssignableToken::Name { value } => SExpr::Var(value.value@),
        AssignableToken::Digit { value } => SExpr::Lit(value.value),
        AssignableToken::MethodCall { value } => SExpr::Call(
            value.name.value@,
            view_exprs(value.parameters@),
        ),
    }
}

/// The abstract expressions of a sequence of expression tokens.
pub open spec fn view_exprs(s: Seq<AssignableToken>) -> Seq<SExpr>
    decreases s,
{
    if s.len() == 0 {
        Seq::empty()
    } else {
        seq![view_expr(s[0])] + view_exprs(s.drop_first())
    }
}

/// `view_exprs` maps element-wise.
pub proof fn lemma_view_exprs(s: Seq<AssignableToken>)
    ensures
        view_exprs(s).len() == s.len(),
        forall|i: int| 0 <= i < s.len() ==> view_exprs(s)[i] == view_expr(s[i]),
    decreases s.len(),
{
    if s.len() > 0 {
        lemma_view_exprs(s.drop_first());
    }
}

// ---------------------------------------------------------------------------
// Fuel for the recursive expression grammar
// ---------------------------------------------------------------------------

/// Recursion budget for parsing an expression of the given length.  Nested
/// calls strip at least one character per level, so this bound is ample; it
/// exists so that every recursive function has a decreasing measure.
pub open spec fn sp_fuel(n: nat) -> nat {
    if n <= 0x7ffffffffffffffd {
        (2 * n + 4) as nat
    } else {
        u64::MAX as nat
    }
}

fn fuel_for(n: usize) -> (f: u64)
    ensures
        f as nat == sp_fuel(n as nat),
{
    if (n as u64) <= 0x7ffffffffffffffd {
        2 * (n as u64) + 4
    } else {
        u64::MAX
    }
}

// ---------------------------------------------------------------------------
// Splitting an argument list on top-level commas
// ---------------------------------------------------------------------------

/// Split the region from `i` on at commas that stand outside parentheses,
/// the piece under construction having started at `start` with `depth` open
/// parentheses so far.  Pieces are trimmed.  `None` when the parentheses do
/// not balance or a piece before a comma is empty.
pub open spec fn sp_split_from(s: Seq<char>, i: int, start: int, depth: int) -> Option<
    Seq<Seq<char>>,
>
    decreases s.len() - i,
{
    if i >= s.len() || i < 0 {
        if depth != 0 {
            None
        } else {
            Some(seq![lexis::sp_trim(s.subrange(start, s.len() as int))])
        }
    } else if s[i] == '(' {
        sp_split_from(s, i + 1, start, depth + 1)
    } else if s[i] == ')' {
        sp_split_from(s, i + 1, start, depth - 1)
    } else if s[i] == ',' && depth == 0 {
        let piece = lexis::sp_trim(s.subrange(start, i));
        if piece.len() == 0 {
            None
        } else {
            match sp_split_from(s, i + 1, i + 1, 0) {
                Some(rest) => Some(seq![piece] + rest),
                None => None,
            }
        }
    } else {
        sp_split_from(s, i + 1, start, depth)
    }
}

/// The comma-separated pieces of an argument list.
pub open spec fn sp_split_args(s: Seq<char>) -> Option<Seq<Seq<char>>> {
    sp_split_from(s, 0, 0, 0)
}

/// Split an argument list on top-level commas; trims each piece, reports a
/// fault for unbalanced parentheses or an empty piece.
fn split_args<'a>(s: &'a str, status: &mut Status) -> (r: Option<Vec<&'a str>>)
    ensures
        match r {
            Some(v) => sp_split_args(s@) == Some(lexis::str_views(v@)) && final(status)@ == old(status)@,
            None => sp_split_args(s@) is None && final(status)@ == true,
        },
{
    let n = s.unicode_len();
    let mut pieces: Vec<&'a str> = Vec::new();
    let mut i: usize = 0;
    let mut start: usize = 0;
    let mut depth: i128 = 0;
    proof {
        assert(lexis::str_views(pieces@) =~= Seq::<Seq<char>>::empty());
        if sp_split_args(s@) is Some {
            assert(Seq::<Seq<char>>::empty() + sp_split_args(s@).unwrap() =~= sp_split_args(
                s@,
            ).unwrap());
        }
    }
    while i < n
        invariant
            0 <= start <= i <= n,
            n == s@.len(),
            -(i as int) <= depth <= i as int,
            status@ == old(status)@,
            match sp_split_from(s@, i as int, start as int, depth as int) {
                Some(rest) => sp_split_args(s@) == Some(lexis::str_views(pieces@) + rest),
                None => sp_split_args(s@) is None,
            },
        decreases n - i,
    {
        let c = s.get_char(i);
        if c == '(' {
            depth = depth + 1;
        } else if c == ')' {
            depth = depth - 1;
        } else if c == ',' && depth == 0 {
            let piece = lexis::trim_spaces(s.substring_char(start, i));
            if piece.unicode_len() == 0 {
                status.throw("a parameter of a call may not be empty");
                return None;
            }
            let ghost mp = lexis::str_views(pieces@);
            pieces.push(piece);
            proof {
                assert(lexis::str_views(pieces@) =~= mp.push(piece@));
                if sp_split_from(s@, i + 1, i + 1, 0) is Some {
                    let rest = sp_split_from(s@, i + 1, i + 1, 0).unwrap();
                    assert(mp + (seq![piece@] + rest) =~= mp.push(piece@) + rest);
                }
            }
            start = i + 1;
        }
        i = i + 1;
    }
    if depth != 0 {
        status.throw("unbalanced parentheses in a parameter list");
        return None;
    }
    let last = lexis::trim_spaces(s.substring_char(start, n));
    let ghost mp = lexis::str_views(pieces@);
    pieces.push(last);
    proof {
        let rest = sp_split_from(s@, n as int, start as int, depth as int);
        assert(rest == Some(seq![lexis::sp_trim(s@.subrange(start as int, n as int))]));
        assert(last@ == lexis::sp_trim(s@.subrange(start as int, n as int)));
        assert(lexis::str_views(pieces@) =~= mp.push(last@));
        assert(mp + seq![last@] =~= mp.push(last@));
    }
    Some(pieces)
}

// ---------------------------------------------------------------------------
// The expression grammar
// ---------------------------------------------------------------------------

/// Parse one expression: a name, a method call, or a literal, tried in that
/// order.  The boolean records whether a fault is reported.
pub open spec fn sp_parse_assignable(s: Seq<char>, fuel: nat) -> (Option<SExpr>, bool)
    decreases fuel,
{
    if fuel == 0 {
        (None::<SExpr>, true)
    } else if lexis::sp_is_name(s) {
        (Some(SExpr::Var(s)), false)
    } else {
        let (c, threw) = sp_parse_call(s, (fuel - 1) as nat);
        match c {
            Some(p) => (Some(SExpr::Call(p.0, p.1)), threw),
            None => if lexis::sp_all_digits(s) && lexis::sp_digits_val(s) <= u32::MAX {
                (Some(SExpr::Lit(lexis::sp_digits_val(s) as u32)), threw)
            } else {
                (None::<SExpr>, threw)
            },
        }
    }
}

/// Parse a method-call expression: `name(arg, ...)`.  Text after the last
/// closing parenthesis is ignored; a line containing `=` is never a call;
/// argument pieces that fail to parse are dropped, but a call whose
/// non-empty argument list yields no argument at all is rejected.
pub open spec fn sp_parse_call(s: Seq<char>, fuel: nat) -> (Option<(Seq<char>, Seq<SExpr>)>, bool)
    decreases fuel,
{
    if fuel == 0 {
        (None::<(Seq<char>, Seq<SExpr>)>, true)
    } else {
        match (lexis::sp_index_of(s, '('), lexis::sp_last_index_of(s, ')')) {
            (Some(fb), Some(lb)) => if lexis::sp_contains_char(s, '=') {
                (None::<(Seq<char>, Seq<SExpr>)>, false)
            } else if lb <= fb {
                (None::<(Seq<char>, Seq<SExpr>)>, false)
            } else {
                let nm = s.subrange(0, fb);
                if !lexis::sp_is_name(nm) {
                    (None::<(Seq<char>, Seq<SExpr>)>, false)
                } else {
                    let ps = s.subrange(fb + 1, lb);
                    if lexis::sp_trim(ps).len() == 0 {
                        (Some((nm, Seq::<SExpr>::empty())), false)
                    } else {
                        match sp_split_args(ps) {
                            None => (None::<(Seq<char>, Seq<SExpr>)>, true),
                            Some(pieces) => {
                                let (args, threw) = sp_parse_args(pieces, 0, (fuel - 1) as nat);
                                if args.len() == 0 {
                                    (None::<(Seq<char>, Seq<SExpr>)>, threw)
                                } else {
                                    (Some((nm, args)), threw)
                                }
                            },
                        }
                    }
                }
            },
            _ => (None::<(Seq<char>, Seq<SExpr>)>, false),
        }
    }
}

/// Parse the pieces of an argument list from index `i` on; pieces that fail
/// to parse are dropped.
pub open spec fn sp_parse_args(pieces: Seq<Seq<char>>, i: int, fuel: nat) -> (Seq<SExpr>, bool)
    decreases fuel,
{
    if fuel == 0 {
        (Seq::<SExpr>::empty(), true)
    } else if i < 0 || i >= pieces.len() {
        (Seq::<SExpr>::empty(), false)
    } else {
        let (e, t1) = sp_parse_assignable(pieces[i], (fuel - 1) as nat);
        let (rest, t2) = sp_parse_args(pieces, i + 1, (fuel - 1) as nat);
        match e {
            Some(e0) => (seq![e0] + rest, t1 || t2),
            None => (rest, t1 || t2),
        }
    }
}

fn parse_assignable_impl(s: &str, status: &mut Status, fuel: u64) -> (r: Option<AssignableToken>)
    ensures
        ({
            let (c, threw) = sp_parse_assignable(s@, fuel as nat);
            &&& (r is Some <==> c is Some)
            &&& (r is Some ==> view_expr(r.unwrap()) == c.unwrap())
            &&& final(status)@ == (old(status)@ || threw)
        }),
    decreases fuel,
{
    if fuel == 0 {
        status.throw("expression too deeply nested");
        return None;
    }
    match NameToken::parse(s) {
        Some(value) => {
            return Some(AssignableToken::Name { value });
        },
        None => {},
    }
    match parse_call_impl(s, status, fuel - 1) {
        Some(value) => {
            return Some(AssignableToken::MethodCall { value });
        },
        None => {},
    }
    match DigitToken::parse(s) {
        Some(value) => Some(AssignableToken::Digit { value }),
        None => None,
    }
}

fn parse_call_impl(s: &str, status: &mut Status, fuel: u64) -> (r: Option<MethodCallToken>)
    ensures
        ({
            let (c, threw) = sp_parse_call(s@, fuel as nat);
            &&& (r is Some <==> c is Some)
            &&& (r is Some ==> r.unwrap().name.value@ == c.unwrap().0 && view_exprs(
                r.unwrap().parameters@,
            ) == c.unwrap().1)
            &&& final(status)@ == (old(status)@ || threw)
        }),
    decreases fuel,
{
    if fuel == 0 {
        status.throw("expression too deeply nested");
        return None;
    }
    let fb = match lexis::find_char(s, '(') {
        Some(j) => j,
        None => {
            return None;
        },
    };
    let lb = match lexis::rfind_char(s, ')') {
        Some(j) => j,
        None => {
            return None;
        },
    };
    if lexis::contains_char(s, '=') {
        return None;
    }
    if lb <= fb {
        return None;
    }
    let name = match NameToken::parse(s.substring_char(0, fb)) {
        Some(t) => t,
        None => {
            return None;
        },
    };
    let ps = s.substring_char(fb + 1, lb);
    if lexis::trim_spaces(ps).unicode_len() == 0 {
        return Some(MethodCallToken { parameters: Vec::new(), name });
    }
    let pieces = match split_args(ps, status) {
        Some(v) => v,
        None => {
            return None;
        },
    };
    let parameters = parse_args_impl(&pieces, 0, status, fuel - 1);
    if parameters.len() == 0 {
        return None;
    }
    Some(MethodCallToken { parameters, name })
}

fn parse_args_impl(pieces: &Vec<&str>, from: usize, status: &mut Status, fuel: u64) -> (r: Vec<
    AssignableToken,
>)
    ensures
        ({
            let (args, threw) = sp_parse_args(lexis::str_views(pieces@), from as int, fuel as nat);
            &&& view_exprs(r@) == args
            &&& final(status)@ == (old(status)@ || threw)
        }),
    decreases fuel,
{
    if fuel == 0 {
        status.throw("expression too deeply nested");
        let r = Vec::<AssignableToken>::new();
        proof {
            assert(view_exprs(r@) =~= Seq::<SExpr>::empty());
        }
        return r;
    }
    if from >= pieces.len() {
        let r = Vec::<AssignableToken>::new();
        proof {
            assert(view_exprs(r@) =~= Seq::<SExpr>::empty());
        }
        return r;
    }
    let e = parse_assignable_impl(pieces[from], status, fuel - 1);
    let rest = parse_args_impl(pieces, from + 1, status, fuel - 1);
    match e {
        Some(tok) => {
            let ghost gtok = tok;
            let mut r: Vec<AssignableToken> = Vec::new();
            r.push(tok);
            let mut rest2 = rest;
            r.append(&mut rest2);
            proof {
                lemma_view_exprs(r@);
                lemma_view_exprs(rest@);
                assert(view_exprs(r@) =~= seq![view_expr(gtok)] + view_exprs(rest@));
            }
            r
        },
        None => rest,
    }
}

impl AssignableToken {
    /// Parse an expression from a whole line of text: a variable name, a
    /// method call, or an unsigned literal, in that order.
    pub fn parse(code_line: &CodeLine, status: &mut Status) -> (r: Option<AssignableToken>)
        ensures
            ({
                let (c, threw) = sp_parse_assignable(
                    code_line.line@,
                    sp_fuel(code_line.line@.len()),
                );
                &&& (r is Some <==> c is Some)
                &&& (r is Some ==> view_expr(r.unwrap()) == c.unwrap())
                &&& final(status)@ == (old(status)@ || threw)
            }),
    {
        let s = code_line.line.as_str();
        let fuel = fuel_for(s.unicode_len());
        parse_assignable_impl(s, status, fuel)
    }
}

impl MethodCallToken {
    /// Parse a method-call expression from a whole line of text.
    pub fn parse(code_line: &CodeLine, status: &mut Status) -> (r: Option<MethodCallToken>)
        ensures
            ({
                let (c, threw) = sp_parse_call(code_line.line@, sp_fuel(code_line.line@.len()));
                &&& (r is Some <==> c is Some)
                &&& (r is Some ==> r.unwrap().name.value@ == c.unwrap().0 && view_exprs(
                    r.unwrap().parameters@,
                ) == c.unwrap().1)
                &&& final(status)@ == (old(status)@ || threw)
            }),
    {
        let s = code_line.line.as_str();
        let fuel = fuel_for(s.unicode_len());
        parse_call_impl(s, status, fuel)
    }
}


// ---------------------------------------------------------------------------
// Statement-level tokens
// ---------------------------------------------------------------------------

/// A compound-update operator token.
#[derive(Clone, Copy, Debug, PartialEq, Eq, Structural)]
pub enum Operator {
    Add,
    Sub,
    Noop,
}

/// The abstract operator; parsing never yields `Noop`.
pub open spec fn view_op(op: Operator) -> SOp {
    match op {
        Operator::Sub => SOp::Sub,
        _ => SOp::Add,
    }
}

/// An assignment statement: `name = expr;`.
pub struct VariableToken {
    pub name: NameToken,
    pub assignment: AssignableToken,
}

impl Clone for VariableToken {
    /// A deep copy that binds the same name to the same abstract expression.
    fn clone(&self) -> (r: Self)
        ensures
            r.name == self.name,
            view_expr(r.assignment) == view_expr(self.assignment),
    {
        VariableToken { name: self.name.clone(), assignment: self.assignment.clone() }
    }
}

/// A compound-update statement: `name += expr;` or `name -= expr;`.
pub struct AdditiveOperatorToken {
    pub name: NameToken,
    pub operator: Operator,
    pub rhs_operand: AssignableToken,
}

impl Clone for AdditiveOperatorToken {
    /// A deep copy that stands for the same abstract update.
    fn clone(&self) -> (r: Self)
        ensures
            r.name == self.name,
            r.operator == self.operator,
            view_expr(r.rhs_operand) == view_expr(self.rhs_operand),
    {
        AdditiveOperatorToken {
            name: self.name.clone(),
            operator: self.operator,
            rhs_operand: self.rhs_operand.clone(),
        }
    }
}

impl AssignableToken {
    /// Whether two expression tokens stand for the same abstract expression.
    pub fn matches(&self, other: &AssignableToken) -> (r: bool)
        ensures
            r == (view_expr(*self) == view_expr(*other)),
        decreases self,
    {
        match (self, other) {
            (AssignableToken::Name { value: a }, AssignableToken::Name { value: b }) => lexis::str_eq(
                a.value.as_str(),
                b.value.as_str(),
            ),
            (AssignableToken::Digit { value: a }, AssignableToken::Digit { value: b }) => a.value
                == b.value,
            (
                AssignableToken::MethodCall { value: a },
                AssignableToken::MethodCall { value: b },
            ) => a.matches(b),
            _ => false,
        }
    }
}

impl MethodCallToken {
    /// Whether two call tokens stand for the same abstract call.
    pub fn matches(&self, other: &MethodCallToken) -> (r: bool)
        ensures
            r == (self.name.value@ == other.name.value@ && view_exprs(self.parameters@)
                == view_exprs(other.parameters@)),
        decreases self,
    {
        proof {
            lemma_view_exprs(self.parameters@);
            lemma_view_exprs(other.parameters@);
        }
        if !lexis::str_eq(self.name.value.as_str(), other.name.value.as_str()) {
            return false;
        }
        if self.parameters.len() != other.parameters.len() {
            proof {
                assert(view_exprs(self.parameters@).len() != view_exprs(other.parameters@).len());
            }
            return false;
        }
        let n = self.parameters.len();
        let mut i: usize = 0;
        while i < n
            invariant
                0 <= i <= n,
                n == self.parameters@.len(),
                n == other.parameters@.len(),
                forall|k: int|
                    0 <= k < i ==> view_expr(#[trigger] self.parameters@[k]) == view_expr(
                        other.parameters@[k],
                    ),
            decreases n - i,
        {
            if !self.parameters[i].matches(&other.parameters[i]) {
                proof {
                    assert(view_exprs(self.parameters@)[i as int] != view_exprs(
                        other.parameters@,
                    )[i as int]);
                }
                return false;
            }
            i = i + 1;
        }
        proof {
            assert(view_exprs(self.parameters@) =~= view_exprs(other.parameters@));
        }
        true
    }
}

/// A `while name != 0:` header.
#[derive(Debug, PartialEq)]
pub struct WhileHeaderToken {
    pub against_zero_variable: Option<NameToken>,
}

impl Clone for WhileHeaderToken {
    fn clone(&self) -> (r: Self)
        ensures
            r == *self,
    {
        match &self.against_zero_variable {
            Some(n) => WhileHeaderToken { against_zero_variable: Some(n.clone()) },
            None => WhileHeaderToken { against_zero_variable: None },
        }
    }
}

/// The escape marker `#` that closes a while body.
#[derive(Clone, Debug, PartialEq)]
pub struct WhileEscapeToken;

/// A method header: `void name(params):` or `num name(params):`.
#[derive(Debug, PartialEq)]
pub struct MethodHeaderToken {
    pub name: NameToken,
    pub parameters: Vec<NameToken>,
    pub return_type: TypeToken,
}

/// Two method headers with equal fields (the parameter vectors equal as
/// sequences).
pub open spec fn mheader_equiv(a: MethodHeaderToken, b: MethodHeaderToken) -> bool {
    a.name == b.name && a.parameters@ == b.parameters@ && a.return_type == b.return_type
}

impl Clone for MethodHeaderToken {
    fn clone(&self) -> (r: Self)
        ensures
            mheader_equiv(r, *self),
    {
        let mut parameters: Vec<NameToken> = Vec::new();
        let mut i: usize = 0;
        while i < self.parameters.len()
            invariant
                0 <= i <= self.parameters@.len(),
                parameters@.len() == i,
                forall|k: int| 0 <= k < i ==> #[trigger] parameters@[k] == self.parameters@[k],
            decreases self.parameters@.len() - i,
        {
            parameters.push(self.parameters[i].clone());
            i = i + 1;
        }
        proof {
            assert(parameters@ =~= self.parameters@);
        }
        let return_type = match self.return_type {
            TypeToken::Void => TypeToken::Void,
            TypeToken::Num => TypeToken::Num,
            TypeToken::Invalid => TypeToken::Invalid,
        };
        MethodHeaderToken { name: self.name.clone(), parameters, return_type }
    }
}

/// A `return;` or `return expr;` statement, remembering the header of the
/// method it returns from.
pub struct ReturnToken {
    pub return_value: Option<AssignableToken>,
    pub header: Option<MethodHeaderToken>,
}

impl Clone for ReturnToken {
    /// A deep copy that stands for the same abstract return statement.
    fn clone(&self) -> (r: Self)
        ensures
            view_return_value(r.return_value) == view_return_value(self.return_value),
            (r.header is Some <==> self.header is Some),
            (r.header is Some ==> mheader_equiv(r.header.unwrap(), self.header.unwrap())),
    {
        let return_value = match &self.return_value {
            Some(e) => Some(e.clone()),
            None => None,
        };
        let header = match &self.header {
            Some(h) => Some(h.clone()),
            None => None,
        };
        ReturnToken { return_value, header }
    }
}

/// The views of a sequence of name tokens.
pub open spec fn view_names(s: Seq<NameToken>) -> Seq<Seq<char>> {
    s.map_values(|t: NameToken| t.value@)
}

/// The abstract return value of a return token.
pub open spec fn view_return_value(v: Option<AssignableToken>) -> Option<SExpr> {
    match v {
        Some(e) => Some(view_expr(e)),
        None => None,
    }
}

// ---------------------------------------------------------------------------
// Statement recognizers, spec level
// ---------------------------------------------------------------------------

/// Parse an assignment `name = expr;`.  Committed once the second field is
/// `=`; a missing terminator or an unparsable right-hand side is a fault.
pub open spec fn sp_parse_variable(s: Seq<char>) -> (Option<(Seq<char>, SExpr)>, bool) {
    let t = lexis::sp_trim(s);
    let fs = lexis::sp_fields(t);
    if fs.len() < 2 || fs[1] != "="@ {
        (None::<(Seq<char>, SExpr)>, false)
    } else if !lexis::sp_is_name(fs[0]) {
        (None::<(Seq<char>, SExpr)>, false)
    } else {
        match lexis::sp_index_of(t, '=') {
            Some(eq) => {
                let semi = t.len() > 0 && t.last() == ';';
                let end = if semi {
                    t.len() - 1
                } else {
                    t.len() as int
                };
                let rhs = if eq + 1 >= end {
                    Seq::<char>::empty()
                } else {
                    lexis::sp_trim(t.subrange(eq + 1, end))
                };
                if !semi {
                    (None::<(Seq<char>, SExpr)>, true)
                } else if rhs.len() == 0 {
                    (None::<(Seq<char>, SExpr)>, true)
                } else {
                    let (e, threw) = sp_parse_assignable(rhs, sp_fuel(rhs.len()));
                    match e {
                        Some(e0) => (Some((fs[0], e0)), threw),
                        None => (None::<(Seq<char>, SExpr)>, true),
                    }
                }
            },
            None => (None::<(Seq<char>, SExpr)>, false),
        }
    }
}

/// Parse a compound update `name += expr;` / `name -= expr;`.  Committed
/// once the second field is the operator; only a missing terminator is a
/// fault of its own, an unparsable right-hand side is silently rejected.
pub open spec fn sp_parse_compound(s: Seq<char>) -> (Option<(Seq<char>, SOp, SExpr)>, bool) {
    let t = lexis::sp_trim(s);
    let fs = lexis::sp_fields(t);
    if fs.len() < 2 || (fs[1] != "+="@ && fs[1] != "-="@) {
        (None::<(Seq<char>, SOp, SExpr)>, false)
    } else if !lexis::sp_is_name(fs[0]) {
        (None::<(Seq<char>, SOp, SExpr)>, false)
    } else {
        let op = if fs[1] == "+="@ {
            SOp::Add
        } else {
            SOp::Sub
        };
        let opchar = if fs[1] == "+="@ {
            '+'
        } else {
            '-'
        };
        match lexis::sp_index_of(t, opchar) {
            Some(oi) => {
                let semi = t.len() > 0 && t.last() == ';';
                let end = if semi {
                    t.len() - 1
                } else {
                    t.len() as int
                };
                let rhs = if oi + 2 >= end {
                    Seq::<char>::empty()
                } else {
                    lexis::sp_trim(t.subrange(oi + 2, end))
                };
                if rhs.len() == 0 {
                    (None::<(Seq<char>, SOp, SExpr)>, false)
                } else {
                    let (e, threw) = sp_parse_assignable(rhs, sp_fuel(rhs.len()));
                    match e {
                        Some(e0) => if semi {
                            (Some((fs[0], op, e0)), threw)
                        } else {
                            (None::<(Seq<char>, SOp, SExpr)>, true)
                        },
                        None => (None::<(Seq<char>, SOp, SExpr)>, threw),
                    }
                }
            },
            None => (None::<(Seq<char>, SOp, SExpr)>, false),
        }
    }
}

/// Parse a `while name != 0:` header.  Committed once the first field is
/// `while`; every malformed shape after that is a fault.
pub open spec fn sp_parse_while_header(s: Seq<char>) -> (Option<Seq<char>>, bool) {
    let t = lexis::sp_trim(s);
    let fs = lexis::sp_fields(t);
    if fs.len() < 1 || fs[0] != "while"@ {
        (None::<Seq<char>>, false)
    } else if !(t.len() > 0 && t.last() == ':') {
        (None::<Seq<char>>, true)
    } else {
        let bfs = lexis::sp_fields(lexis::sp_trim(t.drop_last()));
        if bfs.len() != 4 {
            (None::<Seq<char>>, true)
        } else if !lexis::sp_is_name(bfs[1]) {
            (None::<Seq<char>>, true)
        } else if bfs[2] != "!="@ {
            (None::<Seq<char>>, true)
        } else if bfs[3] != "0"@ {
            (None::<Seq<char>>, true)
        } else {
            (Some(bfs[1]), false)
        }
    }
}

/// Parse a method header `void name(params):` / `num name(params):`.
/// Committed once the first field is a type keyword; a missing `(`/`)` is
/// silently rejected, a missing `:`, a bad name and an unbalanced or empty
/// parameter list are faults, a parameter that is no identifier is silently
/// rejected.
pub open spec fn sp_parse_mheader(s: Seq<char>) -> (
    Option<(Seq<char>, Seq<Seq<char>>, bool)>,
    bool,
) {
    let t = lexis::sp_trim(s);
    let fs = lexis::sp_fields(t);
    if fs.len() < 1 || (fs[0] != "void"@ && fs[0] != "num"@) {
        (None::<(Seq<char>, Seq<Seq<char>>, bool)>, false)
    } else {
        let is_num = fs[0] == "num"@;
        let ff: int = if is_num {
            3
        } else {
            4
        };
        match (lexis::sp_index_of(t, '('), lexis::sp_last_index_of(t, ')')) {
            (Some(fb), Some(lb)) => if !(t.len() > 0 && t.last() == ':') {
                (None::<(Seq<char>, Seq<Seq<char>>, bool)>, true)
            } else if lb <= fb {
                (None::<(Seq<char>, Seq<Seq<char>>, bool)>, false)
            } else if fb < ff {
                (None::<(Seq<char>, Seq<Seq<char>>, bool)>, true)
            } else {
                let name = lexis::sp_trim(t.subrange(ff, fb));
                if !lexis::sp_is_name(name) {
                    (None::<(Seq<char>, Seq<Seq<char>>, bool)>, true)
                } else {
                    let ps = t.subrange(fb + 1, lb);
                    if lexis::sp_trim(ps).len() == 0 {
                        (Some((name, Seq::<Seq<char>>::empty(), is_num)), false)
                    } else {
                        match sp_split_args(ps) {
                            None => (None::<(Seq<char>, Seq<Seq<char>>, bool)>, true),
                            Some(pieces) => if forall|i: int|
                                0 <= i < pieces.len() ==> lexis::sp_is_name(#[trigger] pieces[i]) {
                                (Some((name, pieces, is_num)), false)
                            } else {
                                (None::<(Seq<char>, Seq<Seq<char>>, bool)>, false)
                            },
                        }
                    }
                }
            },
            _ => (None::<(Seq<char>, Seq<Seq<char>>, bool)>, false),
        }
    }
}

/// Parse a `return;` / `return expr;` line, context-free.  Committed once
/// the line starts with the keyword; a missing terminator or an unparsable
/// value is a fault.
pub open spec fn sp_parse_return(s: Seq<char>) -> (Option<Option<SExpr>>, bool) {
    let t = lexis::sp_trim(s);
    if !sp_return_committed_t(t) {
        (None::<Option<SExpr>>, false)
    } else if t.last() != ';' {
        (None::<Option<SExpr>>, true)
    } else {
        let content = lexis::sp_trim(t.subrange(6, t.len() - 1));
        if content.len() == 0 {
            (Some(None::<SExpr>), false)
        } else {
            let (e, threw) = sp_parse_assignable(content, sp_fuel(content.len()));
            match e {
                Some(e0) => (Some(Some(e0)), threw),
                None => (None::<Option<SExpr>>, true),
            }
        }
    }
}

/// Whether the line is an escape marker: exactly `#` once trimmed.
pub open spec fn sp_is_escape(s: Seq<char>) -> bool {
    let t = lexis::sp_trim(s);
    t.len() == 1 && t[0] == '#'
}

// ---------------------------------------------------------------------------
// Statement recognizers, exec level
// ---------------------------------------------------------------------------

impl VariableToken {
    pub fn new(name: NameToken, assignment: AssignableToken) -> (r: VariableToken)
        ensures
            r.name == name,
            r.assignment == assignment,
    {
        VariableToken { name, assignment }
    }

    /// The stored expression, for in-place rewriting.
    pub fn get_assignable_mut(&mut self) -> (r: &mut AssignableToken)
        ensures
            *r == old(self).assignment,
            final(self).name == old(self).name,
            final(self).assignment == *final(r),
    {
        &mut self.assignment
    }

    /// Replace the stored expression.
    pub fn set_assignable_token(&mut self, assignable_token: AssignableToken)
        ensures
            final(self).name == old(self).name,
            final(self).assignment == assignable_token,
    {
        self.assignment = assignable_token;
    }

    /// Recognize an assignment statement.
    pub fn parse(code_line: &CodeLine, status: &mut Status) -> (r: Option<VariableToken>)
        ensures
            ({
                let (c, threw) = sp_parse_variable(code_line.line@);
                &&& (r is Some <==> c is Some)
                &&& (r is Some ==> r.unwrap().name.value@ == c.unwrap().0 && view_expr(
                    r.unwrap().assignment,
                ) == c.unwrap().1)
                &&& final(status)@ == (old(status)@ || threw)
            }),
    {
        let t = lexis::trim_spaces(code_line.line.as_str());
        let fs = lexis::fields(t);
        if fs.len() < 2 || !lexis::str_eq(fs[1], "=") {
            return None;
        }
        let name = match NameToken::parse(fs[0]) {
            Some(nm) => nm,
            None => {
                return None;
            },
        };
        let n = t.unicode_len();
        let eq = match lexis::find_char(t, '=') {
            Some(j) => j,
            None => {
                return None;
            },
        };
        let semi = n > 0 && t.get_char(n - 1) == ';';
        let end: usize = if semi {
            n - 1
        } else {
            n
        };
        if !semi {
            status.throw("expected ';' at the end of an assignment");
            return None;
        }
        if eq + 1 >= end {
            status.throw("an assignment needs a right-hand side");
            return None;
        }
        let rhs = lexis::trim_spaces(t.substring_char(eq + 1, end));
        if rhs.unicode_len() == 0 {
            status.throw("an assignment needs a right-hand side");
            return None;
        }
        let fuel = fuel_for(rhs.unicode_len());
        match parse_assignable_impl(rhs, status, fuel) {
            Some(assignment) => Some(VariableToken { name, assignment }),
            None => {
                status.throw("the right-hand side of an assignment is malformed");
                None
            },
        }
    }
}

impl AdditiveOperatorToken {
    /// Recognize a compound-update statement.
    pub fn parse(code_line: &CodeLine, status: &mut Status) -> (r: Option<AdditiveOperatorToken>)
        ensures
            ({
                let (c, threw) = sp_parse_compound(code_line.line@);
                &&& (r is Some <==> c is Some)
                &&& (r is Some ==> r.unwrap().name.value@ == c.unwrap().0 && view_op(
                    r.unwrap().operator,
                ) == c.unwrap().1 && r.unwrap().operator != Operator::Noop && view_expr(
                    r.unwrap().rhs_operand,
                ) == c.unwrap().2)
                &&& final(status)@ == (old(status)@ || threw)
            }),
    {
        let t = lexis::trim_spaces(code_line.line.as_str());
        let fs = lexis::fields(t);
        if fs.len() < 2 {
            return None;
        }
        let is_add = lexis::str_eq(fs[1], "+=");
        let is_sub = lexis::str_eq(fs[1], "-=");
        if !is_add && !is_sub {
            return None;
        }
        proof {
            reveal_strlit("+=");
            reveal_strlit("-=");
        }
        let name = match NameToken::parse(fs[0]) {
            Some(nm) => nm,
            None => {
                return None;
            },
        };
        let operator = if is_add {
            Operator::Add
        } else {
            Operator::Sub
        };
        let opchar = if is_add {
            '+'
        } else {
            '-'
        };
        let n = t.unicode_len();
        let oi = match lexis::find_char(t, opchar) {
            Some(j) => j,
            None => {
                return None;
            },
        };
        let semi = n > 0 && t.get_char(n - 1) == ';';
        let end: usize = if semi {
            n - 1
        } else {
            n
        };
        if end < 2 || oi >= end - 2 {
            return None;
        }
        let rhs = lexis::trim_spaces(t.substring_char(oi + 2, end));
        if rhs.unicode_len() == 0 {
            return None;
        }
        let fuel = fuel_for(rhs.unicode_len());
        match parse_assignable_impl(rhs, status, fuel) {
            Some(rhs_operand) => {
                if !semi {
                    status.throw("expected ';' at the end of a compound update");
                    return None;
                }
                Some(AdditiveOperatorToken { name, operator, rhs_operand })
            },
            None => None,
        }
    }
}

impl WhileHeaderToken {
    pub fn new(against_zero_variable: Option<NameToken>) -> (r: WhileHeaderToken)
        ensures
            r.against_zero_variable == against_zero_variable,
    {
        WhileHeaderToken { against_zero_variable }
    }

    /// Recognize a `while name != 0:` header.
    pub fn parse(code_line: &CodeLine, status: &mut Status) -> (r: Option<WhileHeaderToken>)
        ensures
            ({
                let (c, threw) = sp_parse_while_header(code_line.line@);
                &&& (r is Some <==> c is Some)
                &&& (r is Some ==> r.unwrap().against_zero_variable is Some
                    && r.unwrap().against_zero_variable.unwrap().value@ == c.unwrap())
                &&& final(status)@ == (old(status)@ || threw)
            }),
    {
        let t = lexis::trim_spaces(code_line.line.as_str());
        let fs = lexis::fields(t);
        if fs.len() < 1 || !lexis::str_eq(fs[0], "while") {
            return None;
        }
        let n = t.unicode_len();
        if !(n > 0 && t.get_char(n - 1) == ':') {
            status.throw("expected ':' at the end of a while header");
            return None;
        }
        let body = lexis::trim_spaces(t.substring_char(0, n - 1));
        proof {
            assert(t@.subrange(0, n - 1) =~= t@.drop_last());
        }
        let bfs = lexis::fields(body);
        if bfs.len() != 4 {
            status.throw("a while header has the shape `while name != 0:`");
            return None;
        }
        let name = match NameToken::parse(bfs[1]) {
            Some(nm) => nm,
            None => {
                status.throw("expected a variable name in a while header");
                return None;
            },
        };
        if !lexis::str_eq(bfs[2], "!=") {
            status.throw("expected `!=` in a while header");
            return None;
        }
        if !lexis::str_eq(bfs[3], "0") {
            status.throw("a while condition compares against 0");
            return None;
        }
        Some(WhileHeaderToken { against_zero_variable: Some(name) })
    }
}

impl WhileEscapeToken {
    /// Recognize the escape marker `#`; content after the marker is a fault.
    pub fn parse(code_line: &CodeLine, status: &mut Status) -> (r: Option<WhileEscapeToken>)
        ensures
            (r is Some <==> sp_is_escape(code_line.line@)),
            final(status)@ == (old(status)@ || ({
                let t = lexis::sp_trim(code_line.line@);
                t.len() > 1 && t[0] == '#'
            })),
    {
        let t = lexis::trim_spaces(code_line.line.as_str());
        let n = t.unicode_len();
        if n >= 1 && t.get_char(0) == '#' {
            if n == 1 {
                return Some(WhileEscapeToken);
            }
            status.throw("unexpected content after an escape marker");
            return None;
        }
        None
    }
}

impl MethodHeaderToken {
    /// Recognize a method header.
    pub fn parse(code_line: &CodeLine, status: &mut Status) -> (r: Option<MethodHeaderToken>)
        ensures
            ({
                let (c, threw) = sp_parse_mheader(code_line.line@);
                &&& (r is Some <==> c is Some)
                &&& (r is Some ==> r.unwrap().name.value@ == c.unwrap().0 && view_names(
                    r.unwrap().parameters@,
                ) == c.unwrap().1 && r.unwrap().return_type == (if c.unwrap().2 {
                    TypeToken::Num
                } else {
                    TypeToken::Void
                }))
                &&& final(status)@ == (old(status)@ || threw)
            }),
    {
        let t = lexis::trim_spaces(code_line.line.as_str());
        let fs = lexis::fields(t);
        if fs.len() < 1 {
            return None;
        }
        let return_type = TypeToken::analyse(fs[0]);
        let is_num = matches!(return_type, TypeToken::Num);
        let is_void = matches!(return_type, TypeToken::Void);
        if !is_num && !is_void {
            return None;
        }
        let ff: usize = if is_num {
            3
        } else {
            4
        };
        let fb = match lexis::find_char(t, '(') {
            Some(j) => j,
            None => {
                return None;
            },
        };
        let lb = match lexis::rfind_char(t, ')') {
            Some(j) => j,
            None => {
                return None;
            },
        };
        let n = t.unicode_len();
        if !(n > 0 && t.get_char(n - 1) == ':') {
            status.throw("expected ':' after a method header");
            return None;
        }
        if lb <= fb {
            return None;
        }
        if fb < ff {
            status.throw("expected a method name");
            return None;
        }
        let name = match NameToken::parse(lexis::trim_spaces(t.substring_char(ff, fb))) {
            Some(nm) => nm,
            None => {
                status.throw("expected a method name");
                return None;
            },
        };
        let ps = t.substring_char(fb + 1, lb);
        if lexis::trim_spaces(ps).unicode_len() == 0 {
            let r = MethodHeaderToken { name, parameters: Vec::new(), return_type };
            proof {
                assert(view_names(r.parameters@) =~= Seq::<Seq<char>>::empty());
            }
            return Some(r);
        }
        let pieces = match split_args(ps, status) {
            Some(v) => v,
            None => {
                return None;
            },
        };
        let mut parameters: Vec<NameToken> = Vec::new();
        let mut i: usize = 0;
        while i < pieces.len()
            invariant
                0 <= i <= pieces@.len(),
                parameters@.len() == i,
                status@ == old(status)@,
                forall|k: int| 0 <= k < i ==> lexis::sp_is_name((#[trigger] pieces@[k])@),
                forall|k: int|
                    0 <= k < i ==> (#[trigger] parameters@[k]).value@ == pieces@[k]@,
            decreases pieces@.len() - i,
        {
            match NameToken::parse(pieces[i]) {
                Some(nm) => {
                    let ghost gnm = nm;
                    parameters.push(nm);
                    proof {
                        assert(parameters@[i as int] == gnm);
                    }
                },
                None => {
                    proof {
                        assert(lexis::str_views(pieces@)[i as int] == pieces@[i as int]@);
                    }
                    return None;
                },
            }
            i = i + 1;
        }
        let r = MethodHeaderToken { name, parameters, return_type };
        proof {
            assert forall|k: int| 0 <= k < pieces@.len() implies lexis::str_views(pieces@)[k]
                == (#[trigger] pieces@[k])@ by {}
            assert(forall|k: int|
                0 <= k < parameters@.len() ==> view_names(parameters@)[k] == (
                #[trigger] parameters@[k]).value@);
            assert(view_names(r.parameters@) =~= lexis::str_views(pieces@));
            assert(forall|k: int|
                0 <= k < lexis::str_views(pieces@).len() ==> lexis::sp_is_name(
                    #[trigger] lexis::str_views(pieces@)[k],
                ));
        }
        Some(r)
    }
}

impl ReturnToken {
    pub fn new(header: Option<MethodHeaderToken>) -> (r: ReturnToken)
        ensures
            r.return_value is None,
            r.header == header,
    {
        ReturnToken { return_value: None, header }
    }

    /// Recognize a return statement in the context of the remembered method
    /// header: without a header the line is silently rejected, and a bare
    /// `return;` in a `num` method is a fault.
    pub fn parse(&self, code_line: &CodeLine, status: &mut Status) -> (r: Option<ReturnToken>)
        ensures
            ({
                let (c, threw) = sp_parse_return(code_line.line@);
                let committed = sp_return_committed(code_line.line@);
                if !committed || self.header is None {
                    r is None && final(status)@ == old(status)@
                } else {
                    let bad_bare = c == Some(None::<SExpr>)
                        && self.header.unwrap().return_type == TypeToken::Num;
                    &&& (r is Some <==> (c is Some && !bad_bare))
                    &&& (r is Some ==> view_return_value(r.unwrap().return_value) == c.unwrap())
                    &&& final(status)@ == (old(status)@ || threw || bad_bare)
                }
            }),
    {
        let t = lexis::trim_spaces(code_line.line.as_str());
        if !return_committed_exec(t) {
            return None;
        }
        let header = match &self.header {
            Some(h) => h,
            None => {
                return None;
            },
        };
        match parse_return_value(code_line, status) {
            Some(v) => {
                if v.is_none() && matches!(header.return_type, TypeToken::Num) {
                    status.throw("the method does not return the value its header declares");
                    return None;
                }
                Some(ReturnToken { return_value: v, header: self.header.clone() })
            },
            None => None,
        }
    }
}

/// Recognize the syntax of a return line, without a method context.
pub(crate) fn parse_return_value(code_line: &CodeLine, status: &mut Status) -> (r: Option<
    Option<AssignableToken>,
>)
    ensures
        ({
            let (c, threw) = sp_parse_return(code_line.line@);
            &&& (r is Some <==> c is Some)
            &&& (r is Some ==> view_return_value(r.unwrap()) == c.unwrap())
            &&& final(status)@ == (old(status)@ || threw)
        }),
{
    let t = lexis::trim_spaces(code_line.line.as_str());
    if !return_committed_exec(t) {
        return None;
    }
    let n = t.unicode_len();
    if t.get_char(n - 1) != ';' {
        status.throw("expected ';' after a return statement");
        return None;
    }
    proof {
        reveal_strlit("return");
        assert(t@[5] == "return"@[5]);
        assert(t@.len() >= 7);
    }
    let content = lexis::trim_spaces(t.substring_char(6, n - 1));
    if content.unicode_len() == 0 {
        return Some(None);
    }
    let fuel = fuel_for(content.unicode_len());
    match parse_assignable_impl(content, status, fuel) {
        Some(e) => Some(Some(e)),
        None => {
            status.throw("too many or malformed values in a return statement");
            None
        },
    }
}

/// Whether a trimmed line is committed to the return grammar: it starts
/// with the keyword `return` followed by a separator or the end.
pub open spec fn sp_return_committed_t(t: Seq<char>) -> bool {
    t.len() >= 6 && t.subrange(0, 6) == "return"@ && (t.len() == 6 || t[6] == ' ' || t[6] == ';')
}

/// Whether a line is committed to the return grammar.
pub open spec fn sp_return_committed(s: Seq<char>) -> bool {
    sp_return_committed_t(lexis::sp_trim(s))
}

fn return_committed_exec(t: &str) -> (r: bool)
    ensures
        r == sp_return_committed_t(t@),
{
    let n = t.unicode_len();
    if n < 6 {
        return false;
    }
    if !lexis::str_eq(t.substring_char(0, 6), "return") {
        return false;
    }
    if n == 6 {
        return true;
    }
    let c = t.get_char(6);
    c == ' ' || c == ';'
}

} // verus!
