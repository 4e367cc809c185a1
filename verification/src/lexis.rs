//! Character-level lexicon: identifier and literal recognizers, keyword
//! tests, and the trimming and field-scanning helpers the parser builds on.
//!
//! Identifiers match `[a-zA-Z_$][a-zA-Z_$0-9]*` and must not be a keyword
//! (`void`, `num`, `while`, `return`); literals are unsigned decimal digit
//! runs whose value fits in a `u32`.

use vstd::prelude::*;
use vstd::string::*;

verus! {

broadcast use vstd::seq::group_seq_axioms, vstd::string::group_string_axioms;

// ---------------------------------------------------------------------------
// Character classes
// ---------------------------------------------------------------------------

pub open spec fn is_space_char(c: char) -> bool {
    c == ' ' || c == '\t' || c == '\r'
}

pub open spec fn is_digit_char(c: char) -> bool {
    '0' as u32 <= c as u32 && c as u32 <= '9' as u32
}

pub open spec fn is_name_start_char(c: char) -> bool {
    ('a' as u32 <= c as u32 && c as u32 <= 'z' as u32)
    || ('A' as u32 <= c as u32 && c as u32 <= 'Z' as u32)
    || c == '_'
    || c == '$'
}

pub open spec fn is_name_char(c: char) -> bool {
    is_name_start_char(c) || is_digit_char(c)
}

fn exec_is_space(c: char) -> (r: bool)
    ensures
        r == is_space_char(c),
{
    c == ' ' || c == '\t' || c == '\r'
}

fn exec_is_digit(c: char) -> (r: bool)
    ensures
        r == is_digit_char(c),
{
    let u = c as u32;
    '0' as u32 <= u && u <= '9' as u32
}

fn exec_is_name_start(c: char) -> (r: bool)
    ensures
        r == is_name_start_char(c),
{
    let u = c as u32;
    ('a' as u32 <= u && u <= 'z' as u32) || ('A' as u32 <= u && u <= 'Z' as u32) || c == '_'
        || c == '$'
}

fn exec_is_name_char(c: char) -> (r: bool)
    ensures
        r == is_name_char(c),
{
    exec_is_name_start(c) || exec_is_digit(c)
}

// ---------------------------------------------------------------------------
// Trimming
// ---------------------------------------------------------------------------

pub open spec fn sp_trim_start(s: Seq<char>) -> Seq<char>
    decreases s.len(),
{
    if s.len() > 0 && is_space_char(s[0]) {
        sp_trim_start(s.drop_first())
    } else {
        s
    }
}

pub open spec fn sp_trim_end(s: Seq<char>) -> Seq<char>
    decreases s.len(),
{
    if s.len() > 0 && is_space_char(s.last()) {
        sp_trim_end(s.drop_last())
    } else {
        s
    }
}

/// The text with leading and trailing spaces removed.
pub open spec fn sp_trim(s: Seq<char>) -> Seq<char> {
    sp_trim_end(sp_trim_start(s))
}

proof fn lemma_trim_start_subrange(s: Seq<char>, k: int)
    requires
        0 <= k <= s.len(),
        forall|i: int| 0 <= i < k ==> is_space_char(#[trigger] s[i]),
        k == s.len() || !is_space_char(s[k]),
    ensures
        sp_trim_start(s) == s.subrange(k, s.len() as int),
    decreases s.len(),
{
    if k == 0 {
        assert(s.subrange(0, s.len() as int) =~= s);
    } else {
        assert(is_space_char(s[0]));
        lemma_trim_start_subrange(s.drop_first(), k - 1);
        assert(s.drop_first().subrange(k - 1, s.drop_first().len() as int) =~= s.subrange(
            k,
            s.len() as int,
        ));
    }
}

proof fn lemma_trim_end_subrange(s: Seq<char>, k: int)
    requires
        0 <= k <= s.len(),
        forall|i: int| k <= i < s.len() ==> is_space_char(#[trigger] s[i]),
        k == 0 || !is_space_char(s[k - 1]),
    ensures
        sp_trim_end(s) == s.subrange(0, k),
    decreases s.len(),
{
    if k == s.len() {
        assert(s.subrange(0, k) =~= s);
    } else {
        assert(is_space_char(s.last()));
        lemma_trim_end_subrange(s.drop_last(), k);
        assert(s.drop_last().subrange(0, k) =~= s.subrange(0, k));
    }
}

/// Remove leading and trailing space characters.
pub fn trim_spaces(s: &str) -> (r: &str)
    ensures
        r@ == sp_trim(s@),
        r@.len() <= s@.len(),
{
    let n = s.unicode_len();
    let mut a: usize = 0;
    while a < n && exec_is_space(s.get_char(a))
        invariant
            0 <= a <= n,
            n == s@.len(),
            forall|i: int| 0 <= i < a ==> is_space_char(#[trigger] s@[i]),
        decreases n - a,
    {
        a = a + 1;
    }
    let mut b: usize = n;
    while b > a && exec_is_space(s.get_char(b - 1))
        invariant
            a <= b <= n,
            n == s@.len(),
            forall|i: int| 0 <= i < a ==> is_space_char(#[trigger] s@[i]),
            a == n || !is_space_char(s@[a as int]),
            forall|i: int| b <= i < n ==> is_space_char(#[trigger] s@[i]),
        decreases b,
    {
        b = b - 1;
    }
    let r = s.substring_char(a, b);
    proof {
        lemma_trim_start_subrange(s@, a as int);
        let t = s@.subrange(a as int, s@.len() as int);
        if b == a {
            // everything after `a` is space, so the trimmed tail is empty
            lemma_trim_end_subrange(t, 0);
        } else {
            lemma_trim_end_subrange(t, b - a);
        }
        assert(t.subrange(0, b - a) =~= s@.subrange(a as int, b as int));
    }
    r
}

// ---------------------------------------------------------------------------
// Comparing against short literals
// ---------------------------------------------------------------------------

/// Character-by-character string equality.
pub fn str_eq(a: &str, b: &str) -> (r: bool)
    ensures
        r == (a@ == b@),
{
    let an = a.unicode_len();
    let bn = b.unicode_len();
    if an != bn {
        proof {
            assert(a@ != b@);
        }
        return false;
    }
    let mut i: usize = 0;
    while i < an
        invariant
            0 <= i <= an,
            an == a@.len(),
            an == b@.len(),
            forall|k: int| 0 <= k < i ==> a@[k] == b@[k],
        decreases an - i,
    {
        if a.get_char(i) != b.get_char(i) {
            proof {
                assert(a@[i as int] != b@[i as int]);
            }
            return false;
        }
        i = i + 1;
    }
    proof {
        assert(a@ =~= b@);
    }
    true
}

/// True when the text begins with `//`.
pub fn starts_with_comment(s: &str) -> (r: bool)
    ensures
        r == (s@.len() >= 2 && s@[0] == '/' && s@[1] == '/'),
{
    if s.unicode_len() < 2 {
        return false;
    }
    s.get_char(0) == '/' && s.get_char(1) == '/'
}

// ---------------------------------------------------------------------------
// Keywords and names
// ---------------------------------------------------------------------------

/// The reserved words of the language.
pub open spec fn sp_is_keyword(s: Seq<char>) -> bool {
    s == "void"@ || s == "num"@ || s == "while"@ || s == "return"@
}

pub fn is_keyword(s: &str) -> (r: bool)
    ensures
        r == sp_is_keyword(s@),
{
    str_eq(s, "void") || str_eq(s, "num") || str_eq(s, "while") || str_eq(s, "return")
}

/// The identifier shape, keywords not yet excluded.
pub open spec fn sp_is_name_shape(s: Seq<char>) -> bool {
    s.len() > 0 && is_name_start_char(s[0]) && forall|i: int|
        0 < i < s.len() ==> is_name_char(#[trigger] s[i])
}

/// A valid identifier: the shape above, and not a keyword.
pub open spec fn sp_is_name(s: Seq<char>) -> bool {
    sp_is_name_shape(s) && !sp_is_keyword(s)
}

fn is_name_shape(s: &str) -> (r: bool)
    ensures
        r == sp_is_name_shape(s@),
{
    let n = s.unicode_len();
    if n == 0 {
        return false;
    }
    if !exec_is_name_start(s.get_char(0)) {
        return false;
    }
    let mut i: usize = 1;
    while i < n
        invariant
            1 <= i <= n,
            n == s@.len(),
            forall|k: int| 0 < k < i ==> is_name_char(#[trigger] s@[k]),
        decreases n - i,
    {
        if !exec_is_name_char(s.get_char(i)) {
            return false;
        }
        i = i + 1;
    }
    true
}

/// An identifier token.
#[derive(Debug, PartialEq)]
pub struct NameToken {
    pub value: String,
}

impl Clone for NameToken {
    fn clone(&self) -> (r: Self)
        ensures
            r == *self,
    {
        NameToken { value: self.value.clone() }
    }
}

impl NameToken {
    pub fn new(value: &str) -> (r: NameToken)
        ensures
            r.value@ == value@,
    {
        NameToken { value: value.to_owned() }
    }

    /// Recognize an identifier: accepted exactly when the whole text has the
    /// identifier shape and is not a keyword.
    pub fn parse(line: &str) -> (r: Option<NameToken>)
        ensures
            r is Some <==> sp_is_name(line@),
            r is Some ==> r.unwrap().value@ == line@,
    {
        if is_name_shape(line) && !is_keyword(line) {
            Some(NameToken::new(line))
        } else {
            None
        }
    }
}

// ---------------------------------------------------------------------------
// Digits
// ---------------------------------------------------------------------------

/// A non-empty run of decimal digits.
pub open spec fn sp_all_digits(s: Seq<char>) -> bool {
    s.len() > 0 && forall|i: int| 0 <= i < s.len() ==> is_digit_char(#[trigger] s[i])
}

/// The numeric value of a digit run (most significant digit first).
pub open spec fn sp_digits_val(s: Seq<char>) -> int
    decreases s.len(),
{
    if s.len() == 0 {
        0
    } else {
        sp_digits_val(s.drop_last()) * 10 + (s.last() as u32 - '0' as u32)
    }
}

/// An unsigned integer literal token.
#[derive(Debug, PartialEq)]
pub struct DigitToken {
    pub value: u32,
}

impl Clone for DigitToken {
    fn clone(&self) -> (r: Self)
        ensures
            r == *self,
    {
        DigitToken { value: self.value }
    }
}

impl DigitToken {
    pub fn new(value: u32) -> (r: DigitToken)
        ensures
            r.value == value,
    {
        DigitToken { value }
    }

    pub fn evaluate(&self) -> (r: u32)
        ensures
            r == self.value,
    {
        self.value
    }

    /// Recognize an unsigned decimal literal.  Accepted exactly when the
    /// text is a digit run whose value fits in a `u32`.
    pub fn parse(assignment: &str) -> (r: Option<DigitToken>)
        ensures
            r is Some <==> (sp_all_digits(assignment@) && sp_digits_val(assignment@) <= u32::MAX),
            r is Some ==> r.unwrap().value == sp_digits_val(assignment@),
    {
        let n = assignment.unicode_len();
        if n == 0 {
            return None;
        }
        let mut acc: u32 = 0;
        let mut i: usize = 0;
        while i < n
            invariant
                0 <= i <= n,
                n == assignment@.len(),
                forall|k: int| 0 <= k < i ==> is_digit_char(#[trigger] assignment@[k]),
                acc == sp_digits_val(assignment@.subrange(0, i as int)),
            decreases n - i,
        {
            let c = assignment.get_char(i);
            if !exec_is_digit(c) {
                return None;
            }
            let d: u32 = c as u32 - '0' as u32;
            if acc > (u32::MAX - d) / 10 {
                // the value would exceed `u32::MAX`
                proof {
                    lemma_digits_val_overflow(assignment@, i as int);
                }
                return None;
            }
            acc = acc * 10 + d;
            proof {
                assert(assignment@.subrange(0, i + 1).drop_last() =~= assignment@.subrange(
                    0,
                    i as int,
                ));
            }
            i = i + 1;
        }
        proof {
            assert(assignment@.subrange(0, n as int) =~= assignment@);
        }
        Some(DigitToken::new(acc))
    }
}

/// Once a prefix of the digits already exceeds what extending by one digit
/// allows, the value of every extension exceeds `u32::MAX`.
proof fn lemma_digits_val_overflow(s: Seq<char>, i: int)
    requires
        0 <= i < s.len(),
        sp_digits_val(s.subrange(0, i)) * 10 + (s[i] as u32 - '0' as u32) > u32::MAX,
    ensures
        sp_digits_val(s) > u32::MAX,
    decreases s.len() - i,
{
    if i == s.len() - 1 {
        assert(s.subrange(0, i) =~= s.drop_last());
    } else {
        let p1 = s.subrange(0, i + 1);
        assert(p1.drop_last() =~= s.subrange(0, i));
        assert(sp_digits_val(p1) == sp_digits_val(s.subrange(0, i)) * 10 + (s[i] as u32
            - '0' as u32));
        assert(sp_digits_val(p1) * 10 + (s[i + 1] as u32 - '0' as u32) > u32::MAX);
        lemma_digits_val_overflow(s, i + 1);
    }
}

// ---------------------------------------------------------------------------
// Return-type words
// ---------------------------------------------------------------------------

/// The declared kind of a method: `void`, `num`, or neither.
#[derive(Clone, Debug, PartialEq, Eq, Structural)]
pub enum TypeToken {
    Void,
    Num,
    Invalid,
}

impl TypeToken {
    /// Classify a word as a return-type keyword.
    pub fn analyse(line: &str) -> (r: TypeToken)
        ensures
            r == TypeToken::Void <==> line@ == "void"@,
            r == TypeToken::Num <==> line@ == "num"@,
    {
        proof {
            reveal_strlit("void");
            reveal_strlit("num");
            assert("void"@.len() == 4);
            assert("num"@.len() == 3);
            assert("void"@ != "num"@);
        }
        if str_eq(line, "void") {
            TypeToken::Void
        } else if str_eq(line, "num") {
            TypeToken::Num
        } else {
            TypeToken::Invalid
        }
    }
}


// ---------------------------------------------------------------------------
// Fields and character searches
// ---------------------------------------------------------------------------

/// The longest space-free prefix.
pub open spec fn sp_until_space(s: Seq<char>) -> Seq<char>
    decreases s.len(),
{
    if s.len() == 0 || is_space_char(s[0]) {
        Seq::empty()
    } else {
        seq![s[0]] + sp_until_space(s.drop_first())
    }
}

proof fn lemma_until_space_subrange(s: Seq<char>, k: int)
    requires
        0 <= k <= s.len(),
        forall|i: int| 0 <= i < k ==> !is_space_char(#[trigger] s[i]),
        k == s.len() || is_space_char(s[k]),
    ensures
        sp_until_space(s) == s.subrange(0, k),
    decreases s.len(),
{
    if k == 0 {
        assert(s.subrange(0, 0) =~= Seq::<char>::empty());
    } else {
        lemma_until_space_subrange(s.drop_first(), k - 1);
        assert(seq![s[0]] + s.drop_first().subrange(0, k - 1) =~= s.subrange(0, k));
    }
}

pub proof fn lemma_until_space_len(s: Seq<char>)
    ensures
        sp_until_space(s).len() <= s.len(),
    decreases s.len(),
{
    if s.len() > 0 && !is_space_char(s[0]) {
        lemma_until_space_len(s.drop_first());
    }
}

/// The whitespace-separated fields of the text, in order.
pub open spec fn sp_fields(s: Seq<char>) -> Seq<Seq<char>>
    decreases s.len(),
    via sp_fields_dec
{
    if s.len() == 0 {
        Seq::empty()
    } else if is_space_char(s[0]) {
        sp_fields(s.drop_first())
    } else {
        let f = sp_until_space(s);
        seq![f] + sp_fields(s.subrange(f.len() as int, s.len() as int))
    }
}

#[via_fn]
proof fn sp_fields_dec(s: Seq<char>) {
    if s.len() > 0 && !is_space_char(s[0]) {
        lemma_until_space_len(s);
        assert(sp_until_space(s).len() >= 1);
    }
}

/// The views of a sequence of string slices.
pub open spec fn str_views(v: Seq<&str>) -> Seq<Seq<char>> {
    v.map_values(|t: &str| t@)
}

/// Split the text into its whitespace-separated fields.
pub fn fields<'a>(s: &'a str) -> (r: Vec<&'a str>)
    ensures
        str_views(r@) == sp_fields(s@),
{
    let n = s.unicode_len();
    let mut r: Vec<&'a str> = Vec::new();
    let mut i: usize = 0;
    proof {
        assert(s@.subrange(0, n as int) =~= s@);
        assert(str_views(r@) =~= Seq::<Seq<char>>::empty());
    }
    while i < n
        invariant
            0 <= i <= n,
            n == s@.len(),
            sp_fields(s@) == str_views(r@) + sp_fields(s@.subrange(i as int, n as int)),
        decreases n - i,
    {
        let ghost rem = s@.subrange(i as int, n as int);
        if exec_is_space(s.get_char(i)) {
            proof {
                assert(rem.drop_first() =~= s@.subrange(i + 1, n as int));
            }
            i = i + 1;
        } else {
            let mut j: usize = i + 1;
            while j < n && !exec_is_space(s.get_char(j))
                invariant
                    i < j <= n,
                    n == s@.len(),
                    forall|k: int| i <= k < j ==> !is_space_char(#[trigger] s@[k]),
                decreases n - j,
            {
                j = j + 1;
            }
            let f = s.substring_char(i, j);
            proof {
                lemma_until_space_subrange(rem, j - i);
                assert(rem.subrange(0, j - i) =~= s@.subrange(i as int, j as int));
                assert(rem.subrange(j - i, rem.len() as int) =~= s@.subrange(j as int, n as int));
            }
            let ghost mv = str_views(r@);
            r.push(f);
            proof {
                assert(str_views(r@) =~= mv.push(f@));
                assert(mv + (seq![f@] + sp_fields(s@.subrange(j as int, n as int))) =~= mv.push(f@)
                    + sp_fields(s@.subrange(j as int, n as int)));
            }
            i = j;
        }
    }
    proof {
        assert(s@.subrange(n as int, n as int) =~= Seq::<char>::empty());
        assert(str_views(r@) + sp_fields(Seq::<char>::empty()) =~= str_views(r@));
    }
    r
}

/// The first index of the character, if it occurs.
pub open spec fn sp_index_of(s: Seq<char>, c: char) -> Option<int>
    decreases s.len(),
{
    if s.len() == 0 {
        None
    } else if s[0] == c {
        Some(0)
    } else {
        match sp_index_of(s.drop_first(), c) {
            Some(j) => Some(j + 1),
            None => None,
        }
    }
}

/// The last index of the character, if it occurs.
pub open spec fn sp_last_index_of(s: Seq<char>, c: char) -> Option<int>
    decreases s.len(),
{
    if s.len() == 0 {
        None
    } else if s.last() == c {
        Some(s.len() - 1)
    } else {
        sp_last_index_of(s.drop_last(), c)
    }
}

proof fn lemma_index_of_at(s: Seq<char>, c: char, k: int)
    requires
        0 <= k <= s.len(),
        forall|i: int| 0 <= i < k ==> #[trigger] s[i] != c,
        k == s.len() || s[k] == c,
    ensures
        sp_index_of(s, c) == if k < s.len() {
            Some(k)
        } else {
            None::<int>
        },
    decreases s.len(),
{
    if s.len() > 0 && k > 0 {
        lemma_index_of_at(s.drop_first(), c, k - 1);
    }
}

proof fn lemma_last_index_of_at(s: Seq<char>, c: char, k: int)
    requires
        -1 <= k < s.len(),
        forall|i: int| k < i < s.len() ==> #[trigger] s[i] != c,
        k == -1 || s[k] == c,
    ensures
        sp_last_index_of(s, c) == if k >= 0 {
            Some(k)
        } else {
            None::<int>
        },
    decreases s.len(),
{
    if s.len() > 0 && k < s.len() - 1 {
        lemma_last_index_of_at(s.drop_last(), c, k);
    }
}

/// Find the first occurrence of a character.
pub fn find_char(s: &str, c: char) -> (r: Option<usize>)
    ensures
        match r {
            Some(j) => j < s@.len() && s@[j as int] == c && sp_index_of(s@, c) == Some(j as int),
            None => sp_index_of(s@, c) is None,
        },
{
    let n = s.unicode_len();
    let mut i: usize = 0;
    while i < n
        invariant
            0 <= i <= n,
            n == s@.len(),
            forall|k: int| 0 <= k < i ==> #[trigger] s@[k] != c,
        decreases n - i,
    {
        if s.get_char(i) == c {
            proof {
                lemma_index_of_at(s@, c, i as int);
            }
            return Some(i);
        }
        i = i + 1;
    }
    proof {
        lemma_index_of_at(s@, c, n as int);
    }
    None
}

/// Find the last occurrence of a character.
pub fn rfind_char(s: &str, c: char) -> (r: Option<usize>)
    ensures
        match r {
            Some(j) => j < s@.len() && s@[j as int] == c && sp_last_index_of(s@, c) == Some(
                j as int,
            ),
            None => sp_last_index_of(s@, c) is None,
        },
{
    let n = s.unicode_len();
    let mut i: usize = n;
    while i > 0
        invariant
            0 <= i <= n,
            n == s@.len(),
            forall|k: int| i <= k < n ==> #[trigger] s@[k] != c,
        decreases i,
    {
        if s.get_char(i - 1) == c {
            proof {
                lemma_last_index_of_at(s@, c, i - 1);
            }
            return Some(i - 1);
        }
        i = i - 1;
    }
    proof {
        lemma_last_index_of_at(s@, c, -1);
    }
    None
}

/// Whether the character occurs in the text.
pub open spec fn sp_contains_char(s: Seq<char>, c: char) -> bool {
    sp_index_of(s, c) is Some
}

pub fn contains_char(s: &str, c: char) -> (r: bool)
    ensures
        r == sp_contains_char(s@, c),
{
    find_char(s, c).is_some()
}

} // verus!
