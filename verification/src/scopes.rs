//! The statement tree: stackable statements, while tokens, method tokens,
//! the top-level scope, and the scope parser that folds the source lines
//! into a `TopLevelScope` one line at a time.
//!
//! The parser is a stack machine: open `while` bodies and the open method
//! body are frames; an escape marker closes the innermost while, a `return`
//! closes the method body.  Fatal parse faults abort the whole parse: the
//! remaining lines are ignored and every open frame is discarded.

use vstd::prelude::*;
use vstd::string::*;
use crate::lexis;
use crate::lexis::{NameToken, TypeToken};
use crate::model::{SExpr, SOp, SStmt, SMethod};
use crate::status::Status;
use crate::code_line::{CodeLine, sp_line_views};
use crate::tokens::{
    AssignableToken, MethodCallToken, VariableToken, AdditiveOperatorToken, Operator,
    WhileHeaderToken, WhileEscapeToken, MethodHeaderToken, ReturnToken, view_expr, view_exprs,
    view_names, view_return_value, view_op, sp_parse_variable, sp_parse_compound,
    sp_parse_while_header, sp_parse_mheader, sp_parse_return, sp_is_escape, sp_parse_call,
    sp_fuel,
};

verus! {

broadcast use vstd::seq::group_seq_axioms, vstd::std_specs::vec::group_vec_axioms;

// ---------------------------------------------------------------------------
// The statement tree
// ---------------------------------------------------------------------------

/// The body of a method or of a while loop: an ordered statement list.
pub struct InnerBodyScope {
    pub stack: Vec<Stackable>,
}

/// A parsed `while` loop: its header, its body, and whether its escape
/// marker was found.
pub struct WhileToken {
    pub header_token: WhileHeaderToken,
    pub scope: Option<InnerBodyScope>,
    pub escape_token_found: bool,
}

/// A parsed method definition: its header and its body.
pub struct MethodToken {
    pub header_token: MethodHeaderToken,
    pub scope: InnerBodyScope,
}

/// One statement of a statement list.
pub enum Stackable {
    MethodCallToken { value: MethodCallToken },
    VariableToken { value: VariableToken },
    WhileToken { value: WhileToken },
    ReturnToken { value: ReturnToken },
    AdditiveOperatorToken { value: AdditiveOperatorToken },
}

/// The condition variable of a while header; the empty name when absent.
pub open spec fn view_while_var(h: WhileHeaderToken) -> Seq<char> {
    match h.against_zero_variable {
        Some(n) => n.value@,
        None => Seq::empty(),
    }
}

/// The abstract statement list of an optional body.
pub open spec fn view_body(sc: Option<InnerBodyScope>) -> Seq<SStmt>
    decreases sc,
{
    match sc {
        Some(b) => view_stackables(b.stack@),
        None => Seq::empty(),
    }
}

/// The abstract statement a stackable stands for.
pub open spec fn view_stackable(s: Stackable) -> SStmt
    decreases s,
{
    match s {
        Stackable::VariableToken { value } => SStmt::Assign(
            value.name.value@,
            view_expr(value.assignment),
        ),
        Stackable::AdditiveOperatorToken { value } => SStmt::Compound(
            value.name.value@,
            view_op(value.operator),
            view_expr(value.rhs_operand),
        ),
        Stackable::MethodCallToken { value } => SStmt::CallStmt(
            value.name.value@,
            view_exprs(value.parameters@),
        ),
        Stackable::WhileToken { value } => SStmt::While(
            view_while_var(value.header_token),
            view_body(value.scope),
        ),
        Stackable::ReturnToken { value } => SStmt::Return(view_return_value(value.return_value)),
    }
}

/// The abstract statements of a statement list.
pub open spec fn view_stackables(s: Seq<Stackable>) -> Seq<SStmt>
    decreases s,
{
    if s.len() == 0 {
        Seq::empty()
    } else {
        seq![view_stackable(s[0])] + view_stackables(s.drop_first())
    }
}

/// `view_stackables` maps element-wise.
pub proof fn lemma_view_stackables(s: Seq<Stackable>)
    ensures
        view_stackables(s).len() == s.len(),
        forall|i: int| 0 <= i < s.len() ==> view_stackables(s)[i] == view_stackable(s[i]),
    decreases s.len(),
{
    if s.len() > 0 {
        lemma_view_stackables(s.drop_first());
    }
}

/// Well-formedness of a statement: a while carries a condition variable, a
/// closed body and its escape marker; a compound update carries a real
/// operator.  The parser only produces well-formed statements.
pub open spec fn wf_stackable(s: Stackable) -> bool
    decreases s,
{
    match s {
        Stackable::VariableToken { value } => true,
        Stackable::AdditiveOperatorToken { value } => value.operator != Operator::Noop,
        Stackable::MethodCallToken { value } => true,
        Stackable::WhileToken { value } => value.header_token.against_zero_variable is Some
            && value.scope is Some && value.escape_token_found && wf_stackables(
            value.scope.unwrap().stack@,
        ),
        Stackable::ReturnToken { value } => true,
    }
}

/// Well-formedness of a statement list.
pub open spec fn wf_stackables(s: Seq<Stackable>) -> bool
    decreases s,
{
    if s.len() == 0 {
        true
    } else {
        wf_stackable(s[0]) && wf_stackables(s.drop_first())
    }
}

/// `wf_stackables` holds element-wise.
pub proof fn lemma_wf_stackables(s: Seq<Stackable>)
    ensures
        wf_stackables(s) <==> (forall|i: int| 0 <= i < s.len() ==> wf_stackable(#[trigger] s[i])),
    decreases s.len(),
{
    if s.len() > 0 {
        lemma_wf_stackables(s.drop_first());
        assert(forall|k: int| 1 <= k < s.len() ==> #[trigger] s[k] == s.drop_first()[k - 1]);
    }
}

/// Pushing a well-formed statement keeps a statement list well-formed.
pub proof fn lemma_wf_stackables_push(s: Seq<Stackable>, x: Stackable)
    requires
        wf_stackables(s),
        wf_stackable(x),
    ensures
        wf_stackables(s.push(x)),
        view_stackables(s.push(x)) == view_stackables(s).push(view_stackable(x)),
{
    lemma_wf_stackables(s);
    lemma_wf_stackables(s.push(x));
    assert(forall|i: int| 0 <= i < s.len() ==> s.push(x)[i] == #[trigger] s[i]);
    assert(s.push(x)[s.len() as int] == x);
    lemma_view_stackables(s.push(x));
    lemma_view_stackables(s);
    assert(view_stackables(s.push(x)) =~= view_stackables(s).push(view_stackable(x)));
}

/// The abstract method a method token stands for.
pub open spec fn view_method(m: MethodToken) -> SMethod {
    SMethod {
        name: m.header_token.name.value@,
        params: view_names(m.header_token.parameters@),
        is_num: m.header_token.return_type == TypeToken::Num,
        body: view_stackables(m.scope.stack@),
    }
}

/// The abstract methods of a method list.
pub open spec fn view_methods(s: Seq<MethodToken>) -> Seq<SMethod>
    decreases s,
{
    if s.len() == 0 {
        Seq::empty()
    } else {
        seq![view_method(s[0])] + view_methods(s.drop_first())
    }
}

/// `view_methods` maps element-wise.
pub proof fn lemma_view_methods(s: Seq<MethodToken>)
    ensures
        view_methods(s).len() == s.len(),
        forall|i: int| 0 <= i < s.len() ==> view_methods(s)[i] == view_method(s[i]),
    decreases s.len(),
{
    if s.len() > 0 {
        lemma_view_methods(s.drop_first());
    }
}

/// Well-formedness of a method: a declared kind and a well-formed body.
pub open spec fn wf_method(m: MethodToken) -> bool {
    m.header_token.return_type != TypeToken::Invalid && wf_stackables(m.scope.stack@)
}

/// Well-formedness of a method list.
pub open spec fn wf_methods(s: Seq<MethodToken>) -> bool {
    forall|i: int| 0 <= i < s.len() ==> wf_method(#[trigger] s[i])
}


impl InnerBodyScope {
    /// An empty body.
    pub fn new() -> (r: InnerBodyScope)
        ensures
            r.stack@.len() == 0,
    {
        InnerBodyScope { stack: Vec::new() }
    }
}

impl WhileToken {
    /// A while loop with no body parsed yet.
    pub fn new(header_token: WhileHeaderToken) -> (r: WhileToken)
        ensures
            r.header_token == header_token,
            r.scope is None,
            !r.escape_token_found,
    {
        WhileToken { header_token, scope: None, escape_token_found: false }
    }
}

impl MethodToken {
    /// A method with an empty body.
    pub fn new(header_token: MethodHeaderToken) -> (r: MethodToken)
        ensures
            r.header_token == header_token,
            r.scope.stack@.len() == 0,
    {
        MethodToken { header_token, scope: InnerBodyScope::new() }
    }

    /// Whether the last statement of the body is a `return`.
    pub fn ends_with_return(&self) -> (r: bool)
        ensures
            r == (self.scope.stack@.len() > 0 && self.scope.stack@.last() is ReturnToken),
    {
        let n = self.scope.stack.len();
        if n == 0 {
            return false;
        }
        self.scope.stack[n - 1].is_return_token()
    }
}

impl Stackable {
    /// Whether this statement is a `return`.
    pub fn is_return_token(&self) -> (r: bool)
        ensures
            r == (self is ReturnToken),
    {
        match self {
            Stackable::ReturnToken { .. } => true,
            _ => false,
        }
    }
}


// ---------------------------------------------------------------------------
// Line classification
// ---------------------------------------------------------------------------

/// What one source line is, resolved in grammar order: assignment, method
/// header, while header, return, compound update, escape marker, method
/// call; anything else is malformed.
pub enum SLine {
    LAssign(Seq<char>, SExpr),
    LMHeader(Seq<char>, Seq<Seq<char>>, bool),
    LWHeader(Seq<char>),
    LRet(Option<SExpr>),
    LCompound(Seq<char>, SOp, SExpr),
    LEscape,
    LCall(Seq<char>, Seq<SExpr>),
    LBad,
}

/// Classify one line.  The boolean records whether a fault is reported.
pub open spec fn sp_classify(s: Seq<char>) -> (SLine, bool) {
    let (va, t1) = sp_parse_variable(s);
    match va {
        Some(p) => (SLine::LAssign(p.0, p.1), t1),
        None => {
            let (mh, t2) = sp_parse_mheader(s);
            match mh {
                Some(p) => (SLine::LMHeader(p.0, p.1, p.2), t1 || t2),
                None => {
                    let (wh, t3) = sp_parse_while_header(s);
                    match wh {
                        Some(cv) => (SLine::LWHeader(cv), t1 || t2 || t3),
                        None => {
                            let (rt, t4) = sp_parse_return(s);
                            match rt {
                                Some(v) => (SLine::LRet(v), t1 || t2 || t3 || t4),
                                None => {
                                    let (cp, t5) = sp_parse_compound(s);
                                    match cp {
                                        Some(p) => (
                                            SLine::LCompound(p.0, p.1, p.2),
                                            t1 || t2 || t3 || t4 || t5,
                                        ),
                                        None => if sp_is_escape(s) {
                                            (SLine::LEscape, t1 || t2 || t3 || t4 || t5)
                                        } else {
                                            let t = lexis::sp_trim(s);
                                            let (mc, t6) = sp_parse_call(t, sp_fuel(t.len()));
                                            match mc {
                                                Some(p) => (
                                                    SLine::LCall(p.0, p.1),
                                                    t1 || t2 || t3 || t4 || t5 || t6,
                                                ),
                                                None => (SLine::LBad, true),
                                            }
                                        },
                                    }
                                },
                            }
                        },
                    }
                },
            }
        },
    }
}

/// The exec side of a classified line.
pub enum Classified {
    CVariable(VariableToken),
    CMHeader(MethodHeaderToken),
    CWHeader(NameToken),
    CRet(Option<AssignableToken>),
    CCompound(AdditiveOperatorToken),
    CEscape,
    CCall(MethodCallToken),
    CBad,
}

/// The abstract line a classified line stands for.
pub open spec fn view_classified(c: Classified) -> SLine {
    match c {
        Classified::CVariable(v) => SLine::LAssign(v.name.value@, view_expr(v.assignment)),
        Classified::CMHeader(h) => SLine::LMHeader(
            h.name.value@,
            view_names(h.parameters@),
            h.return_type == TypeToken::Num,
        ),
        Classified::CWHeader(n) => SLine::LWHeader(n.value@),
        Classified::CRet(v) => SLine::LRet(view_return_value(v)),
        Classified::CCompound(a) => SLine::LCompound(
            a.name.value@,
            view_op(a.operator),
            view_expr(a.rhs_operand),
        ),
        Classified::CEscape => SLine::LEscape,
        Classified::CCall(m) => SLine::LCall(m.name.value@, view_exprs(m.parameters@)),
        Classified::CBad => SLine::LBad,
    }
}

/// Structural soundness of a classified line beyond its view.
pub open spec fn wf_classified(c: Classified) -> bool {
    match c {
        Classified::CCompound(a) => a.operator != Operator::Noop,
        Classified::CMHeader(h) => h.return_type != TypeToken::Invalid,
        _ => true,
    }
}

/// Classify one line, reporting faults on the status sink.
fn classify(code_line: &CodeLine, status: &mut Status) -> (c: Classified)
    ensures
        ({
            let (l, threw) = sp_classify(code_line.line@);
            &&& view_classified(c) == l
            &&& wf_classified(c)
            &&& final(status)@ == (old(status)@ || threw)
        }),
{
    match VariableToken::parse(code_line, status) {
        Some(v) => {
            return Classified::CVariable(v);
        },
        None => {},
    }
    match MethodHeaderToken::parse(code_line, status) {
        Some(h) => {
            return Classified::CMHeader(h);
        },
        None => {},
    }
    match WhileHeaderToken::parse(code_line, status) {
        Some(h) => {
            match h.against_zero_variable {
                Some(n) => {
                    return Classified::CWHeader(n);
                },
                None => {
                    proof {
                        assert(false);
                    }
                },
            }
        },
        None => {},
    }
    match crate::tokens::parse_return_value(code_line, status) {
        Some(v) => {
            return Classified::CRet(v);
        },
        None => {},
    }
    match AdditiveOperatorToken::parse(code_line, status) {
        Some(a) => {
            return Classified::CCompound(a);
        },
        None => {},
    }
    if is_escape_line(code_line) {
        return Classified::CEscape;
    }
    let trimmed = CodeLine::new(lexis::trim_spaces(code_line.line.as_str()), 0);
    match MethodCallToken::parse(&trimmed, status) {
        Some(m) => {
            return Classified::CCall(m);
        },
        None => {},
    }
    status.throw("the line matches no statement of the grammar");
    Classified::CBad
}

/// Whether the line is exactly the escape marker.
fn is_escape_line(code_line: &CodeLine) -> (r: bool)
    ensures
        r == sp_is_escape(code_line.line@),
{
    let t = lexis::trim_spaces(code_line.line.as_str());
    t.unicode_len() == 1 && t.get_char(0) == '#'
}


// ---------------------------------------------------------------------------
// The scope parser: a stack machine folded over the lines
// ---------------------------------------------------------------------------

/// An open scope while parsing: the method body under construction, or one
/// open while body.
pub enum SFrame {
    SFMethod { name: Seq<char>, params: Seq<Seq<char>>, is_num: bool, stmts: Seq<SStmt> },
    SFWhile { cond: Seq<char>, stmts: Seq<SStmt> },
}

/// The whole parser state: finished top-level statements and methods, the
/// open frames (innermost last), whether the parse was aborted, and the
/// error flag of the status sink.
#[verifier::ext_equal]
pub struct SPState {
    pub top: Seq<SStmt>,
    pub methods: Seq<SMethod>,
    pub frames: Seq<SFrame>,
    pub aborted: bool,
    pub failed: bool,
}

/// The initial parser state.
pub open spec fn sp_program_init(failed: bool) -> SPState {
    SPState {
        top: Seq::empty(),
        methods: Seq::empty(),
        frames: Seq::empty(),
        aborted: false,
        failed,
    }
}

/// Append a statement to the innermost open frame, or to the top level.
pub open spec fn sp_frame_push(f: SFrame, stmt: SStmt) -> SFrame {
    match f {
        SFrame::SFMethod { name, params, is_num, stmts } => SFrame::SFMethod {
            name,
            params,
            is_num,
            stmts: stmts.push(stmt),
        },
        SFrame::SFWhile { cond, stmts } => SFrame::SFWhile { cond, stmts: stmts.push(stmt) },
    }
}

pub open spec fn sp_push_stmt(st: SPState, stmt: SStmt) -> SPState {
    if st.frames.len() > 0 {
        let j = st.frames.len() - 1;
        SPState { frames: st.frames.update(j, sp_frame_push(st.frames[j], stmt)), ..st }
    } else {
        SPState { top: st.top.push(stmt), ..st }
    }
}

/// A fatal parse fault: the open frames are discarded and the rest of the
/// program is ignored.
pub open spec fn sp_abort(st: SPState) -> SPState {
    SPState { frames: Seq::empty(), aborted: true, failed: true, ..st }
}

/// Whether the parse stands inside a method body (possibly inside while
/// bodies nested in it): methods open only at the top, so the method frame
/// is the outermost one.
pub open spec fn sp_in_method(frames: Seq<SFrame>) -> bool {
    frames.len() > 0 && frames[0] is SFMethod
}

pub open spec fn sp_method_is_num(frames: Seq<SFrame>) -> bool {
    match frames[0] {
        SFrame::SFMethod { is_num, .. } => is_num,
        _ => false,
    }
}

/// One step of the parser on one line.
pub open spec fn sp_pstep(st: SPState, line: Seq<char>) -> SPState {
    if st.aborted {
        st
    } else {
        let (l, threw) = sp_classify(line);
        let st1 = SPState { failed: st.failed || threw, ..st };
        match l {
            SLine::LAssign(n, e) => sp_push_stmt(st1, SStmt::Assign(n, e)),
            SLine::LCompound(n, op, e) => sp_push_stmt(st1, SStmt::Compound(n, op, e)),
            SLine::LCall(n, args) => sp_push_stmt(st1, SStmt::CallStmt(n, args)),
            SLine::LMHeader(n, ps, is_num) => if st1.frames.len() == 0 {
                SPState {
                    frames: st1.frames.push(
                        SFrame::SFMethod { name: n, params: ps, is_num, stmts: Seq::empty() },
                    ),
                    ..st1
                }
            } else {
                // a method definition may not stand inside another body
                sp_abort(st1)
            },
            SLine::LWHeader(cv) => SPState {
                frames: st1.frames.push(SFrame::SFWhile { cond: cv, stmts: Seq::empty() }),
                ..st1
            },
            SLine::LRet(v) => if !sp_in_method(st1.frames) {
                sp_abort(st1)
            } else if v is None && sp_method_is_num(st1.frames) {
                // a bare return does not return the value a `num` method declares
                sp_abort(st1)
            } else if st1.frames.len() == 1 {
                // the return closes the method body
                match st1.frames[0] {
                    SFrame::SFMethod { name, params, is_num, stmts } => SPState {
                        methods: st1.methods.push(
                            SMethod { name, params, is_num, body: stmts.push(SStmt::Return(v)) },
                        ),
                        frames: Seq::empty(),
                        ..st1
                    },
                    _ => st1,
                }
            } else {
                sp_push_stmt(st1, SStmt::Return(v))
            },
            SLine::LEscape => if st1.frames.len() > 0 && st1.frames.last() is SFWhile {
                match st1.frames.last() {
                    SFrame::SFWhile { cond, stmts } => sp_push_stmt(
                        SPState { frames: st1.frames.drop_last(), ..st1 },
                        SStmt::While(cond, stmts),
                    ),
                    _ => st1,
                }
            } else {
                // an escape marker without an open while body
                sp_abort(st1)
            },
            SLine::LBad => sp_abort(st1),
        }
    }
}

/// At the end of the input every scope must have been closed: an open while
/// misses its escape marker, an open method body misses its return.
pub open spec fn sp_finalize(st: SPState) -> SPState {
    if st.aborted {
        st
    } else if st.frames.len() > 0 {
        sp_abort(st)
    } else {
        st
    }
}

/// The parser: fold the steps over the lines from index `i`, then finalize.
pub open spec fn sp_parse_program(lines: Seq<Seq<char>>, i: int, st: SPState) -> SPState
    decreases lines.len() - i,
{
    if i < 0 || i >= lines.len() {
        sp_finalize(st)
    } else {
        sp_parse_program(lines, i + 1, sp_pstep(st, lines[i]))
    }
}

// ---------------------------------------------------------------------------
// The exec parser state
// ---------------------------------------------------------------------------

/// An open scope of the exec parser.
pub enum Frame {
    FMethod { header: MethodHeaderToken, stmts: Vec<Stackable> },
    FWhile { cond: NameToken, stmts: Vec<Stackable> },
}

pub open spec fn view_frame(f: Frame) -> SFrame {
    match f {
        Frame::FMethod { header, stmts } => SFrame::SFMethod {
            name: header.name.value@,
            params: view_names(header.parameters@),
            is_num: header.return_type == TypeToken::Num,
            stmts: view_stackables(stmts@),
        },
        Frame::FWhile { cond, stmts } => SFrame::SFWhile {
            cond: cond.value@,
            stmts: view_stackables(stmts@),
        },
    }
}

pub open spec fn view_frames(s: Seq<Frame>) -> Seq<SFrame>
    decreases s,
{
    if s.len() == 0 {
        Seq::empty()
    } else {
        seq![view_frame(s[0])] + view_frames(s.drop_first())
    }
}

pub proof fn lemma_view_frames(s: Seq<Frame>)
    ensures
        view_frames(s).len() == s.len(),
        forall|i: int| 0 <= i < s.len() ==> view_frames(s)[i] == view_frame(s[i]),
    decreases s.len(),
{
    if s.len() > 0 {
        lemma_view_frames(s.drop_first());
    }
}

pub open spec fn wf_frame(f: Frame) -> bool {
    match f {
        Frame::FMethod { header, stmts } => header.return_type != TypeToken::Invalid
            && wf_stackables(stmts@),
        Frame::FWhile { cond, stmts } => wf_stackables(stmts@),
    }
}

pub open spec fn wf_frames(s: Seq<Frame>) -> bool {
    forall|i: int| 0 <= i < s.len() ==> wf_frame(#[trigger] s[i])
}

/// The mutable state of the exec parser.
struct ParseState {
    top: Vec<Stackable>,
    methods: Vec<MethodToken>,
    frames: Vec<Frame>,
    aborted: bool,
}

pub open spec fn wf_pstate_parts(
    top: Seq<Stackable>,
    methods: Seq<MethodToken>,
    frames: Seq<Frame>,
) -> bool {
    wf_stackables(top) && wf_methods(methods) && wf_frames(frames)
}

spec fn wf_pstate(st: ParseState) -> bool {
    wf_pstate_parts(st.top@, st.methods@, st.frames@)
}

spec fn pview(st: ParseState, failed: bool) -> SPState {
    SPState {
        top: view_stackables(st.top@),
        methods: view_methods(st.methods@),
        frames: view_frames(st.frames@),
        aborted: st.aborted,
        failed,
    }
}

/// Append a statement to the innermost open frame or to the top level.
fn push_stmt(st: &mut ParseState, stmt: Stackable)
    requires
        wf_pstate(*old(st)),
        wf_stackable(stmt),
    ensures
        wf_pstate(*final(st)),
        forall|f: bool|
            pview(*final(st), f) == sp_push_stmt(#[trigger] pview(*old(st), f), view_stackable(
                stmt,
            )),
{
    let ghost gstmt = stmt;
    let n = st.frames.len();
    if n > 0 {
        proof {
            lemma_view_frames(st.frames@);
        }
        let frame = st.frames.pop().unwrap();
        let ghost gframe = frame;
        match frame {
            Frame::FMethod { header, mut stmts } => {
                proof {
                    lemma_wf_stackables_push(stmts@, gstmt);
                }
                stmts.push(stmt);
                st.frames.push(Frame::FMethod { header, stmts });
            },
            Frame::FWhile { cond, mut stmts } => {
                proof {
                    lemma_wf_stackables_push(stmts@, gstmt);
                }
                stmts.push(stmt);
                st.frames.push(Frame::FWhile { cond, stmts });
            },
        }
        proof {
            let of = old(st).frames@;
            assert(st.frames@ =~= of.update(
                of.len() - 1,
                st.frames@[of.len() - 1],
            ));
            assert(view_frame(st.frames@[of.len() - 1]) == sp_frame_push(
                view_frame(gframe),
                view_stackable(gstmt),
            ));
            lemma_view_frames(st.frames@);
            lemma_view_frames(of);
            assert(view_frames(st.frames@) =~= view_frames(of).update(
                of.len() - 1,
                sp_frame_push(view_frame(gframe), view_stackable(gstmt)),
            ));
            assert(forall|f: bool|
                pview(*st, f) =~= sp_push_stmt(#[trigger] pview(*old(st), f), view_stackable(
                    gstmt,
                )));
        }
    } else {
        proof {
            lemma_wf_stackables_push(st.top@, gstmt);
            lemma_view_frames(st.frames@);
        }
        st.top.push(stmt);
        proof {
            lemma_view_stackables(old(st).top@);
            assert(forall|f: bool|
                pview(*st, f) =~= sp_push_stmt(#[trigger] pview(*old(st), f), view_stackable(
                    gstmt,
                )));
        }
    }
}


/// Record a fatal parse fault: report it, discard the open frames, ignore
/// the rest of the program.
fn abort_parse(st: &mut ParseState, status: &mut Status, msg: &str)
    requires
        wf_pstate(*old(st)),
    ensures
        wf_pstate(*final(st)),
        final(status)@ == true,
        forall|f: bool| pview(*final(st), true) == sp_abort(#[trigger] pview(*old(st), f)),
{
    st.frames.clear();
    st.aborted = true;
    status.throw(msg);
    proof {
        assert(view_frames(st.frames@) =~= Seq::<SFrame>::empty());
        assert(forall|f: bool| pview(*st, true) =~= sp_abort(#[trigger] pview(*old(st), f)));
    }
}

/// One step of the parser: classify the line and extend the state.
fn parse_step(st: &mut ParseState, line: &CodeLine, status: &mut Status)
    requires
        wf_pstate(*old(st)),
    ensures
        wf_pstate(*final(st)),
        pview(*final(st), final(status)@) == sp_pstep(
            pview(*old(st), old(status)@),
            line.line@,
        ),
{
    if st.aborted {
        return;
    }
    let ghost st1 = SPState {
        failed: old(status)@ || sp_classify(line.line@).1,
        ..pview(*old(st), old(status)@)
    };
    let c = classify(line, status);
    proof {
        assert(pview(*st, status@) == st1);
    }
    match c {
        Classified::CVariable(v) => {
            let ghost gv = v;
            push_stmt(st, Stackable::VariableToken { value: v });
            proof {
                assert(pview(*st, status@) == sp_push_stmt(
                    st1,
                    view_stackable(Stackable::VariableToken { value: gv }),
                ));
                assert(view_stackable(Stackable::VariableToken { value: gv }) == SStmt::Assign(
                    gv.name.value@,
                    view_expr(gv.assignment),
                ));
                assert(pview(*st, status@) == sp_pstep(pview(*old(st), old(status)@), line.line@));
            }
        },
        Classified::CCompound(a) => {
            let ghost ga = a;
            push_stmt(st, Stackable::AdditiveOperatorToken { value: a });
            proof {
                assert(pview(*st, status@) == sp_push_stmt(
                    st1,
                    view_stackable(Stackable::AdditiveOperatorToken { value: ga }),
                ));
                assert(pview(*st, status@) == sp_pstep(pview(*old(st), old(status)@), line.line@));
            }
        },
        Classified::CCall(m) => {
            let ghost gm = m;
            push_stmt(st, Stackable::MethodCallToken { value: m });
            proof {
                assert(pview(*st, status@) == sp_push_stmt(
                    st1,
                    view_stackable(Stackable::MethodCallToken { value: gm }),
                ));
                assert(pview(*st, status@) == sp_pstep(pview(*old(st), old(status)@), line.line@));
            }
        },
        Classified::CMHeader(h) => {
            if st.frames.len() == 0 {
                let ghost oldframes = st.frames@;
                st.frames.push(Frame::FMethod { header: h, stmts: Vec::new() });
                proof {
                    lemma_view_frames(oldframes);
                    lemma_view_frames(st.frames@);
                    assert(wf_stackables(Seq::<Stackable>::empty()));
                    assert(view_stackables(Seq::<Stackable>::empty()) =~= Seq::<SStmt>::empty());
                    assert(view_frames(st.frames@) =~= view_frames(oldframes).push(
                        view_frame(st.frames@.last()),
                    ));
                    assert(pview(*st, status@) =~= sp_pstep(
                        pview(*old(st), old(status)@),
                        line.line@,
                    ));
                }
            } else {
                abort_parse(st, status, "a method cannot be defined inside another body");
            }
        },
        Classified::CWHeader(n) => {
            let ghost oldframes = st.frames@;
            st.frames.push(Frame::FWhile { cond: n, stmts: Vec::new() });
            proof {
                lemma_view_frames(oldframes);
                lemma_view_frames(st.frames@);
                assert(wf_stackables(Seq::<Stackable>::empty()));
                assert(view_stackables(Seq::<Stackable>::empty()) =~= Seq::<SStmt>::empty());
                assert(view_frames(st.frames@) =~= view_frames(oldframes).push(
                    view_frame(st.frames@.last()),
                ));
                assert(pview(*st, status@) =~= sp_pstep(
                    pview(*old(st), old(status)@),
                    line.line@,
                ));
            }
        },
        Classified::CRet(v) => {
            proof {
                lemma_view_frames(st.frames@);
            }
            if st.frames.len() == 0 {
                abort_parse(st, status, "a return statement needs an enclosing method");
                return;
            }
            let in_num = match &st.frames[0] {
                Frame::FMethod { header, .. } => matches!(header.return_type, TypeToken::Num),
                Frame::FWhile { .. } => {
                    abort_parse(st, status, "a return statement needs an enclosing method");
                    return;
                },
            };
            if v.is_none() && in_num {
                abort_parse(
                    st,
                    status,
                    "the method does not return the value its header declares",
                );
                return;
            }
            if st.frames.len() == 1 {
                let frame = st.frames.pop().unwrap();
                match frame {
                    Frame::FMethod { header, mut stmts } => {
                        let ret = ReturnToken { return_value: v, header: Some(header.clone()) };
                        let ghost gstmt = Stackable::ReturnToken { value: ret };
                        proof {
                            lemma_wf_stackables_push(stmts@, gstmt);
                        }
                        stmts.push(Stackable::ReturnToken { value: ret });
                        let ghost oldmethods = st.methods@;
                        let m = MethodToken { header_token: header, scope: InnerBodyScope { stack: stmts } };
                        st.methods.push(m);
                        proof {
                            lemma_view_frames(st.frames@);
                            lemma_view_methods(oldmethods);
                            lemma_view_methods(st.methods@);
                            assert(view_frames(st.frames@) =~= Seq::<SFrame>::empty());
                            assert(view_methods(st.methods@) =~= view_methods(oldmethods).push(
                                view_method(st.methods@.last()),
                            ));
                            assert(pview(*st, status@) =~= sp_pstep(
                                pview(*old(st), old(status)@),
                                line.line@,
                            ));
                        }
                    },
                    Frame::FWhile { .. } => {
                        proof {
                            assert(false);
                        }
                    },
                }
            } else {
                let ret = ReturnToken { return_value: v, header: None };
                let ghost gret = ret;
                push_stmt(st, Stackable::ReturnToken { value: ret });
                proof {
                    assert(pview(*st, status@) == sp_push_stmt(
                        st1,
                        view_stackable(Stackable::ReturnToken { value: gret }),
                    ));
                    assert(pview(*st, status@) == sp_pstep(
                        pview(*old(st), old(status)@),
                        line.line@,
                    ));
                }
            }
        },
        Classified::CEscape => {
            proof {
                lemma_view_frames(st.frames@);
            }
            let n = st.frames.len();
            if n == 0 {
                abort_parse(st, status, "an escape marker needs an open while body");
                return;
            }
            let is_while = match &st.frames[n - 1] {
                Frame::FWhile { .. } => true,
                Frame::FMethod { .. } => false,
            };
            if !is_while {
                abort_parse(st, status, "an escape marker needs an open while body");
                return;
            }
            let frame = st.frames.pop().unwrap();
            proof {
                lemma_view_frames(st.frames@);
                assert(view_frames(st.frames@) =~= view_frames(old(st).frames@).drop_last());
            }
            let ghost mid = pview(*st, status@);
            match frame {
                Frame::FWhile { cond, stmts } => {
                    let w = WhileToken {
                        header_token: WhileHeaderToken { against_zero_variable: Some(cond) },
                        scope: Some(InnerBodyScope { stack: stmts }),
                        escape_token_found: true,
                    };
                    let ghost gw = w;
                    push_stmt(st, Stackable::WhileToken { value: w });
                    proof {
                        assert(mid =~= SPState { frames: st1.frames.drop_last(), ..st1 });
                        assert(pview(*st, status@) == sp_push_stmt(
                            mid,
                            view_stackable(Stackable::WhileToken { value: gw }),
                        ));
                        assert(pview(*st, status@) == sp_pstep(
                            pview(*old(st), old(status)@),
                            line.line@,
                        ));
                    }
                },
                Frame::FMethod { .. } => {
                    proof {
                        assert(false);
                    }
                },
            }
        },
        Classified::CBad => {
            abort_parse(st, status, "the line matches no statement of the grammar");
        },
    }
}


// ---------------------------------------------------------------------------
// The top-level scope and the tokenizer
// ---------------------------------------------------------------------------

/// The parsed program: the ordered top-level statement list and the parsed
/// method definitions.
pub struct TopLevelScope {
    pub stack: Vec<Stackable>,
    pub methods: Vec<MethodToken>,
}

impl TopLevelScope {
    /// An empty program.
    pub fn new() -> (r: TopLevelScope)
        ensures
            r.stack@.len() == 0,
            r.methods@.len() == 0,
    {
        TopLevelScope { stack: Vec::new(), methods: Vec::new() }
    }
}

/// The scope parser over a whole line sequence.
pub struct Tokenizer {}

impl Tokenizer {
    pub fn new() -> (r: Tokenizer) {
        Tokenizer {  }
    }

    /// Parse the ordered source lines into a program.  The result is exactly
    /// the fold of the one-line parser steps, finalized: parse faults raise
    /// the status flag, abort the parse, and discard every open scope.
    pub fn tokenize(&self, code_lines: &Vec<CodeLine>, status: &mut Status) -> (scope:
        TopLevelScope)
        ensures
            ({
                let r = sp_parse_program(
                    sp_line_views(code_lines@),
                    0,
                    sp_program_init(old(status)@),
                );
                &&& view_stackables(scope.stack@) == r.top
                &&& view_methods(scope.methods@) == r.methods
                &&& final(status)@ == r.failed
                &&& wf_stackables(scope.stack@)
                &&& wf_methods(scope.methods@)
            }),
    {
        let ghost lines0 = sp_line_views(code_lines@);
        let ghost init = sp_program_init(old(status)@);
        let mut st = ParseState {
            top: Vec::new(),
            methods: Vec::new(),
            frames: Vec::new(),
            aborted: false,
        };
        proof {
            assert(view_stackables(st.top@) =~= Seq::<SStmt>::empty());
            assert(view_methods(st.methods@) =~= Seq::<SMethod>::empty());
            assert(view_frames(st.frames@) =~= Seq::<SFrame>::empty());
            assert(pview(st, old(status)@) =~= init);
        }
        let n = code_lines.len();
        let mut i: usize = 0;
        while i < n
            invariant
                0 <= i <= n,
                n == code_lines@.len(),
                wf_pstate(st),
                sp_parse_program(lines0, 0, init) == sp_parse_program(
                    lines0,
                    i as int,
                    pview(st, status@),
                ),
            decreases n - i,
        {
            let ghost before = pview(st, status@);
            parse_step(&mut st, &code_lines[i], status);
            proof {
                assert(lines0[i as int] == code_lines@[i as int].line@);
                assert(sp_parse_program(lines0, i as int, before) == sp_parse_program(
                    lines0,
                    i + 1,
                    sp_pstep(before, lines0[i as int]),
                ));
            }
            i = i + 1;
        }
        let ghost end_state = pview(st, status@);
        proof {
            assert(sp_parse_program(lines0, 0, init) == sp_finalize(end_state));
            lemma_view_frames(st.frames@);
        }
        if !st.aborted && st.frames.len() > 0 {
            let closes_while = match &st.frames[st.frames.len() - 1] {
                Frame::FWhile { .. } => true,
                Frame::FMethod { .. } => false,
            };
            if closes_while {
                status.throw("a while body is never closed by its escape marker");
            } else {
                status.throw("a method body must end with a return statement");
            }
        }
        let ParseState { top, methods, frames: _, aborted: _ } = st;
        TopLevelScope { stack: top, methods }
    }
}


// ---------------------------------------------------------------------------
// Copying and comparing statements
// ---------------------------------------------------------------------------

impl Clone for InnerBodyScope {
    /// A deep copy that stands for the same abstract statement list.
    fn clone(&self) -> (r: Self)
        ensures
            view_stackables(r.stack@) == view_stackables(self.stack@),
            wf_stackables(self.stack@) ==> wf_stackables(r.stack@),
        decreases self,
    {
        let mut stack: Vec<Stackable> = Vec::new();
        let mut i: usize = 0;
        proof {
            lemma_view_stackables(self.stack@);
            lemma_wf_stackables(self.stack@);
        }
        while i < self.stack.len()
            invariant
                0 <= i <= self.stack@.len(),
                stack@.len() == i,
                forall|k: int|
                    0 <= k < i ==> view_stackable(#[trigger] stack@[k]) == view_stackable(
                        self.stack@[k],
                    ),
                forall|k: int|
                    0 <= k < i ==> (wf_stackable(self.stack@[k]) ==> wf_stackable(
                        #[trigger] stack@[k],
                    )),
            decreases self.stack@.len() - i,
        {
            stack.push(self.stack[i].clone());
            i = i + 1;
        }
        proof {
            lemma_view_stackables(stack@);
            lemma_wf_stackables(stack@);
            assert(view_stackables(stack@) =~= view_stackables(self.stack@));
        }
        InnerBodyScope { stack }
    }
}

impl Clone for WhileToken {
    /// A deep copy that stands for the same abstract loop.
    fn clone(&self) -> (r: Self)
        ensures
            r.header_token == self.header_token,
            r.escape_token_found == self.escape_token_found,
            (r.scope is Some <==> self.scope is Some),
            view_body(r.scope) == view_body(self.scope),
            wf_stackable(Stackable::WhileToken { value: *self }) ==> wf_stackable(
                Stackable::WhileToken { value: r },
            ),
        decreases self,
    {
        let scope = match &self.scope {
            Some(b) => Some(b.clone()),
            None => None,
        };
        WhileToken {
            header_token: self.header_token.clone(),
            scope,
            escape_token_found: self.escape_token_found,
        }
    }
}

impl Clone for Stackable {
    /// A deep copy that stands for the same abstract statement.
    fn clone(&self) -> (r: Self)
        ensures
            view_stackable(r) == view_stackable(*self),
            wf_stackable(*self) ==> wf_stackable(r),
        decreases self,
    {
        match self {
            Stackable::VariableToken { value } => Stackable::VariableToken {
                value: value.clone(),
            },
            Stackable::AdditiveOperatorToken { value } => Stackable::AdditiveOperatorToken {
                value: value.clone(),
            },
            Stackable::MethodCallToken { value } => Stackable::MethodCallToken {
                value: value.clone(),
            },
            Stackable::WhileToken { value } => Stackable::WhileToken { value: value.clone() },
            Stackable::ReturnToken { value } => Stackable::ReturnToken { value: value.clone() },
        }
    }
}

/// Whether two optional bodies stand for the same abstract statement list.
fn body_matches(a: &Option<InnerBodyScope>, b: &Option<InnerBodyScope>) -> (r: bool)
    ensures
        r == (view_body(*a) == view_body(*b)),
    decreases *a,
{
    match (a, b) {
        (Some(x), Some(y)) => stacks_match(&x.stack, &y.stack),
        (None, None) => true,
        (Some(x), None) => {
            proof {
                lemma_view_stackables(x.stack@);
            }
            x.stack.len() == 0
        },
        (None, Some(y)) => {
            proof {
                lemma_view_stackables(y.stack@);
            }
            y.stack.len() == 0
        },
    }
}

/// Whether two statement lists stand for the same abstract statements.
fn stacks_match(a: &Vec<Stackable>, b: &Vec<Stackable>) -> (r: bool)
    ensures
        r == (view_stackables(a@) == view_stackables(b@)),
    decreases a@,
{
    proof {
        lemma_view_stackables(a@);
        lemma_view_stackables(b@);
    }
    if a.len() != b.len() {
        return false;
    }
    let n = a.len();
    let mut i: usize = 0;
    while i < n
        invariant
            0 <= i <= n,
            n == a@.len(),
            n == b@.len(),
            forall|k: int|
                0 <= k < i ==> view_stackable(#[trigger] a@[k]) == view_stackable(b@[k]),
        decreases n - i,
    {
        if !a[i].matches(&b[i]) {
            proof {
                assert(view_stackables(a@)[i as int] != view_stackables(b@)[i as int]);
            }
            return false;
        }
        i = i + 1;
    }
    proof {
        assert(view_stackables(a@) =~= view_stackables(b@));
    }
    true
}

impl Stackable {
    /// Whether two statements stand for the same abstract statement.
    pub fn matches(&self, other: &Stackable) -> (r: bool)
        ensures
            r == (view_stackable(*self) == view_stackable(*other)),
        decreases self,
    {
        match (self, other) {
            (Stackable::VariableToken { value: a }, Stackable::VariableToken { value: b }) => {
                lexis::str_eq(a.name.value.as_str(), b.name.value.as_str()) && a.assignment.matches(
                    &b.assignment,
                )
            },
            (
                Stackable::AdditiveOperatorToken { value: a },
                Stackable::AdditiveOperatorToken { value: b },
            ) => {
                let op_same = match (a.operator, b.operator) {
                    (Operator::Sub, Operator::Sub) => true,
                    (Operator::Sub, _) => false,
                    (_, Operator::Sub) => false,
                    _ => true,
                };
                lexis::str_eq(a.name.value.as_str(), b.name.value.as_str()) && op_same
                    && a.rhs_operand.matches(&b.rhs_operand)
            },
            (Stackable::MethodCallToken { value: a }, Stackable::MethodCallToken { value: b }) => a
                .matches(b),
            (Stackable::WhileToken { value: a }, Stackable::WhileToken { value: b }) => {
                let va = match &a.header_token.against_zero_variable {
                    Some(n) => n.value.as_str(),
                    None => "",
                };
                let vb = match &b.header_token.against_zero_variable {
                    Some(n) => n.value.as_str(),
                    None => "",
                };
                proof {
                    reveal_strlit("");
                    assert(""@ =~= Seq::<char>::empty());
                }
                lexis::str_eq(va, vb) && body_matches(&a.scope, &b.scope)
            },
            (Stackable::ReturnToken { value: a }, Stackable::ReturnToken { value: b }) => {
                match (&a.return_value, &b.return_value) {
                    (Some(x), Some(y)) => x.matches(y),
                    (None, None) => true,
                    _ => false,
                }
            },
            _ => false,
        }
    }
}


// ---------------------------------------------------------------------------
// The context-free token
// ---------------------------------------------------------------------------

/// One recognized line, context-free.
pub enum Token {
    Variable { value: VariableToken },
    MethodCall { value: MethodCallToken },
    MethodHeader { value: MethodHeaderToken },
    WhileHeader { value: WhileHeaderToken },
    While { value: WhileToken },
    WhileEscape { value: WhileEscapeToken },
    Return { value: ReturnToken },
    AdditiveOperator { value: AdditiveOperatorToken },
}

/// The recognizers `Token::parse` tries, in order: assignment, method call,
/// method header, while header, compound update.
pub open spec fn sp_token_parse(s: Seq<char>) -> (Option<SLine>, bool) {
    let (va, t1) = sp_parse_variable(s);
    match va {
        Some(p) => (Some(SLine::LAssign(p.0, p.1)), t1),
        None => {
            let (mc, t2) = sp_parse_call(s, sp_fuel(s.len()));
            match mc {
                Some(p) => (Some(SLine::LCall(p.0, p.1)), t1 || t2),
                None => {
                    let (mh, t3) = sp_parse_mheader(s);
                    match mh {
                        Some(p) => (Some(SLine::LMHeader(p.0, p.1, p.2)), t1 || t2 || t3),
                        None => {
                            let (wh, t4) = sp_parse_while_header(s);
                            match wh {
                                Some(cv) => (Some(SLine::LWHeader(cv)), t1 || t2 || t3 || t4),
                                None => {
                                    let (cp, t5) = sp_parse_compound(s);
                                    match cp {
                                        Some(p) => (
                                            Some(SLine::LCompound(p.0, p.1, p.2)),
                                            t1 || t2 || t3 || t4 || t5,
                                        ),
                                        None => (
                                            None::<SLine>,
                                            t1 || t2 || t3 || t4 || t5,
                                        ),
                                    }
                                },
                            }
                        },
                    }
                },
            }
        },
    }
}

/// The abstract line of a token that `Token::parse` can produce.
pub open spec fn view_token(t: Token) -> SLine {
    match t {
        Token::Variable { value } => SLine::LAssign(value.name.value@, view_expr(value.assignment)),
        Token::MethodCall { value } => SLine::LCall(
            value.name.value@,
            view_exprs(value.parameters@),
        ),
        Token::MethodHeader { value } => SLine::LMHeader(
            value.name.value@,
            view_names(value.parameters@),
            value.return_type == TypeToken::Num,
        ),
        Token::WhileHeader { value } => SLine::LWHeader(view_while_var(value)),
        Token::AdditiveOperator { value } => SLine::LCompound(
            value.name.value@,
            view_op(value.operator),
            view_expr(value.rhs_operand),
        ),
        Token::Return { value } => SLine::LRet(view_return_value(value.return_value)),
        Token::WhileEscape { value } => SLine::LEscape,
        Token::While { value } => SLine::LBad,
    }
}

impl Token {
    /// Recognize one line, trying assignment, method call, method header,
    /// while header, and compound update, in that order.
    pub fn parse(line: &CodeLine, status: &mut Status) -> (r: Option<Token>)
        ensures
            ({
                let (c, threw) = sp_token_parse(line.line@);
                &&& (r is Some <==> c is Some)
                &&& (r is Some ==> view_token(r.unwrap()) == c.unwrap())
                &&& final(status)@ == (old(status)@ || threw)
            }),
    {
        match VariableToken::parse(line, status) {
            Some(value) => {
                return Some(Token::Variable { value });
            },
            None => {},
        }
        match MethodCallToken::parse(line, status) {
            Some(value) => {
                return Some(Token::MethodCall { value });
            },
            None => {},
        }
        match MethodHeaderToken::parse(line, status) {
            Some(value) => {
                return Some(Token::MethodHeader { value });
            },
            None => {},
        }
        match WhileHeaderToken::parse(line, status) {
            Some(value) => {
                return Some(Token::WhileHeader { value });
            },
            None => {},
        }
        match AdditiveOperatorToken::parse(line, status) {
            Some(value) => {
                return Some(Token::AdditiveOperator { value });
            },
            None => {},
        }
        None
    }

    /// The while header this token holds, if it is one.
    pub fn to_while_header_token(&self) -> (r: Option<WhileHeaderToken>)
        ensures
            match *self {
                Token::WhileHeader { value } => r == Some(value),
                _ => r is None,
            },
    {
        match self {
            Token::WhileHeader { value } => Some(value.clone()),
            _ => None,
        }
    }

    /// The method header this token holds, if it is one.
    pub fn to_method_header(&self) -> (r: Option<MethodHeaderToken>)
        ensures
            match *self {
                Token::MethodHeader { value } => r is Some && crate::tokens::mheader_equiv(
                    r.unwrap(),
                    value,
                ),
                _ => r is None,
            },
    {
        match self {
            Token::MethodHeader { value } => Some(value.clone()),
            _ => None,
        }
    }

    /// The while loop this token holds, if it is one.
    pub fn to_while_token(&self) -> (r: Option<WhileToken>)
        ensures
            match *self {
                Token::While { value } => r is Some && view_stackable(
                    Stackable::WhileToken { value: r.unwrap() },
                ) == view_stackable(Stackable::WhileToken { value }),
                _ => r is None,
            },
    {
        match self {
            Token::While { value } => Some(value.clone()),
            _ => None,
        }
    }

    /// The escape marker this token holds, if it is one.
    pub fn to_while_escape_token(&self) -> (r: Option<WhileEscapeToken>)
        ensures
            match *self {
                Token::WhileEscape { value } => r is Some,
                _ => r is None,
            },
    {
        match self {
            Token::WhileEscape { value } => Some(WhileEscapeToken),
            _ => None,
        }
    }

    /// The statement this token stands for, if it is one: headers and the
    /// escape marker are structure, not statements.
    pub fn to_stackable(&self) -> (r: Option<Stackable>)
        ensures
            match *self {
                Token::Variable { value } => r is Some && view_stackable(r.unwrap())
                    == view_stackable(Stackable::VariableToken { value }),
                Token::MethodCall { value } => r is Some && view_stackable(r.unwrap())
                    == view_stackable(Stackable::MethodCallToken { value }),
                Token::While { value } => r is Some && view_stackable(r.unwrap())
                    == view_stackable(Stackable::WhileToken { value }),
                Token::Return { value } => r is Some && view_stackable(r.unwrap())
                    == view_stackable(Stackable::ReturnToken { value }),
                Token::AdditiveOperator { value } => r is Some && view_stackable(r.unwrap())
                    == view_stackable(Stackable::AdditiveOperatorToken { value }),
                _ => r is None,
            },
    {
        match self {
            Token::Variable { value } => Some(Stackable::VariableToken { value: value.clone() }),
            Token::MethodCall { value } => Some(
                Stackable::MethodCallToken { value: value.clone() },
            ),
            Token::While { value } => Some(Stackable::WhileToken { value: value.clone() }),
            Token::Return { value } => Some(Stackable::ReturnToken { value: value.clone() }),
            Token::AdditiveOperator { value } => Some(
                Stackable::AdditiveOperatorToken { value: value.clone() },
            ),
            Token::WhileHeader { .. } => None,
            Token::MethodHeader { .. } => None,
            Token::WhileEscape { .. } => None,
        }
    }
}

impl TopLevelScope {
    /// Recognize one line, context-free.
    pub fn parse(&self, code_line: &CodeLine, status: &mut Status) -> (r: Option<Token>)
        ensures
            ({
                let (c, threw) = sp_token_parse(code_line.line@);
                &&& (r is Some <==> c is Some)
                &&& (r is Some ==> view_token(r.unwrap()) == c.unwrap())
                &&& final(status)@ == (old(status)@ || threw)
            }),
    {
        Token::parse(code_line, status)
    }
}

} // verus!
