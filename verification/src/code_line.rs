//! Source lines: raw text plus a 1-based line number, and the `normalize`
//! pass that drops comment and blank lines and renumbers the rest densely.

use vstd::prelude::*;
use crate::lexis;

verus! {

/// One source line.  Immutable once produced.
#[derive(Clone, Debug, PartialEq)]
pub struct CodeLine {
    pub line: String,
    pub line_number: u32,
}

impl CodeLine {
    pub fn new(line: &str, line_number: u32) -> (r: CodeLine)
        ensures
            r.line@ == line@,
            r.line_number == line_number,
    {
        CodeLine { line: line.to_owned(), line_number }
    }

    /// A line whose number does not matter (used for isolated token parsing).
    pub fn new_from_line(line: &str) -> (r: CodeLine)
        ensures
            r.line@ == line@,
            r.line_number == 0,
    {
        CodeLine::new(line, 0)
    }
}

/// The texts of a line sequence.
pub open spec fn sp_line_views(lines: Seq<CodeLine>) -> Seq<Seq<char>> {
    lines.map_values(|c: CodeLine| c.line@)
}

/// True of a line that `normalize` keeps: its trimmed text is neither empty
/// nor a `//` comment.
pub open spec fn sp_line_kept(s: Seq<char>) -> bool {
    let t = lexis::sp_trim(s);
    t.len() > 0 && !(t.len() >= 2 && t[0] == '/' && t[1] == '/')
}

/// The texts of the lines `normalize` keeps, in order.
pub open spec fn sp_normalize(lines: Seq<Seq<char>>) -> Seq<Seq<char>>
    decreases lines.len(),
{
    if lines.len() == 0 {
        Seq::empty()
    } else {
        let rest = sp_normalize(lines.drop_last());
        if sp_line_kept(lines.last()) {
            rest.push(lines.last())
        } else {
            rest
        }
    }
}

/// Drop comment lines (trimmed text starting with `//`) and blank lines,
/// then renumber the survivors densely from 1.
pub fn normalize(source_code: &Vec<CodeLine>) -> (r: Vec<CodeLine>)
    requires
        source_code@.len() < u32::MAX,
    ensures
        sp_line_views(r@) == sp_normalize(sp_line_views(source_code@)),
        forall|i: int| 0 <= i < r@.len() ==> #[trigger] r@[i].line_number == i + 1,
        r@.len() <= source_code@.len(),
{
    let mut source: Vec<CodeLine> = Vec::new();
    let mut clc: u32 = 1;
    let mut i: usize = 0;

    proof {
        assert(sp_line_views(source_code@).take(0) =~= Seq::empty());
        assert(sp_line_views(source@) =~= Seq::empty());
    }

    while i < source_code.len()
        invariant
            source_code@.len() < u32::MAX,
            0 <= i <= source_code@.len(),
            source@.len() <= i,
            clc == source@.len() + 1,
            sp_line_views(source@) == sp_normalize(sp_line_views(source_code@).take(i as int)),
            forall|k: int| 0 <= k < source@.len() ==> #[trigger] source@[k].line_number == k + 1,
        decreases source_code@.len() - i,
    {
        let ghost prefix = sp_line_views(source_code@).take(i as int);
        let ghost prefix1 = sp_line_views(source_code@).take(i + 1);
        proof {
            assert(prefix1.drop_last() =~= prefix);
            assert(prefix1.last() == source_code@[i as int].line@);
        }
        let trimmed = lexis::trim_spaces(source_code[i].line.as_str());
        let keep = if trimmed.unicode_len() == 0 {
            false
        } else {
            !lexis::starts_with_comment(trimmed)
        };
        proof {
            assert(keep == sp_line_kept(source_code@[i as int].line@));
        }
        if keep {
            let kept_line = CodeLine::new(source_code[i].line.as_str(), clc);
            source.push(kept_line);
            clc = clc + 1;
            proof {
                assert(sp_line_views(source@) =~= sp_normalize(prefix).push(
                    source_code@[i as int].line@,
                ));
            }
        }
        i = i + 1;
    }
    proof {
        assert(sp_line_views(source_code@).take(i as int) =~= sp_line_views(source_code@));
    }
    source
}

} // verus!
