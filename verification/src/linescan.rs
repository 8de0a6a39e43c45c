//! Line classification for the block grammar: what construct a single
//! line can begin, read from its leading characters.

use vstd::prelude::*;
use crate::chars::{
    all_blank, blank_char, digit_char, indent_of, is_blank_char, is_digit_char, is_lower_char,
    is_upper_char, lemma_indent_of_bounds, lemma_trim_end_of_bounds, lower_char, trim_end_of,
    upper_char,
};
use crate::elements::{ListItemSuffix, ListItemType, OrderedListItemType, TodoStatus,
    UnorderedListItemType};

verus! {

/// Blank characters only.
pub open spec fn blank_line(s: Seq<char>) -> bool {
    all_blank(s)
}

pub fn check_blank(v: &Vec<char>) -> (r: bool)
    ensures
        r == blank_line(v@),
{
    let n = v.len();
    let mut i: usize = 0;
    while i < n
        invariant
            0 <= i <= n == v@.len(),
            forall|k: int| 0 <= k < i ==> is_blank_char(#[trigger] v@[k]),
        decreases n - i,
    {
        if !blank_char(v[i]) {
            return false;
        }
        i += 1;
    }
    true
}

/// On a non-blank line, the trimmed content sits in
/// `[indent_of(s), trim_end_of(s))`.
pub proof fn lemma_trim_bounds(s: Seq<char>)
    requires
        !all_blank(s),
    ensures
        0 <= indent_of(s) < trim_end_of(s) <= s.len(),
{
    let k = choose|k: int| 0 <= k < s.len() && !is_blank_char(s[k]);
    lemma_indent_of_bounds(s);
    lemma_trim_end_of_bounds(s);
    assert(indent_of(s) <= k);
    assert(trim_end_of(s) > k);
}

/// The trimmed content of a line.
pub open spec fn trimmed(s: Seq<char>) -> Seq<char> {
    s.subrange(indent_of(s), trim_end_of(s))
}

/// The leading whitespace width and the trimmed copy of a line.
pub fn scan_trim(v: &Vec<char>) -> (r: (usize, usize))
    ensures
        r.0 == indent_of(v@),
        r.1 == trim_end_of(v@),
        r.0 <= v@.len(),
        r.1 <= v@.len(),
        !all_blank(v@) ==> r.0 < r.1,
{
    proof {
        lemma_indent_of_bounds(v@);
        lemma_trim_end_of_bounds(v@);
        if !all_blank(v@) {
            lemma_trim_bounds(v@);
        }
    }
    let n = v.len();
    assert(v@.skip(0) =~= v@);
    let mut i: usize = 0;
    while i < n && blank_char(v[i])
        invariant
            0 <= i <= n == v@.len(),
            indent_of(v@) == i + indent_of(v@.skip(i as int)),
        decreases n - i,
    {
        proof {
            assert(v@.skip(i as int)[0] == v@[i as int]);
            assert(v@.skip(i as int).subrange(1, v@.skip(i as int).len() as int) =~= v@.skip(
                i + 1,
            ));
        }
        i += 1;
    }
    proof {
        if i < n {
            assert(v@.skip(i as int)[0] == v@[i as int]);
        }
    }
    assert(v@.subrange(0, n as int) =~= v@);
    let mut j: usize = n;
    while j > 0 && blank_char(v[j - 1])
        invariant
            0 <= j <= n == v@.len(),
            trim_end_of(v@) == trim_end_of(v@.subrange(0, j as int)),
        decreases j,
    {
        proof {
            assert(v@.subrange(0, j as int)[j - 1] == v@[j - 1]);
            assert(v@.subrange(0, j as int).subrange(0, j - 1) =~= v@.subrange(0, j - 1));
        }
        j -= 1;
    }
    proof {
        if j > 0 {
            assert(v@.subrange(0, j as int)[j - 1] == v@[j - 1]);
        }
    }
    (i, j)
}

// ---------------------------------------------------------------------------
// Headers
// ---------------------------------------------------------------------------

/// The length of the run of `=` at the start of `t`.
pub open spec fn eq_run(t: Seq<char>, j: int) -> int
    decreases t.len() - j,
{
    if j < 0 || j >= t.len() || t[j] != '=' {
        0
    } else {
        1 + eq_run(t, j + 1)
    }
}

pub proof fn lemma_eq_run(t: Seq<char>, j: int)
    requires
        0 <= j <= t.len(),
    ensures
        0 <= eq_run(t, j) <= t.len() - j,
        forall|k: int| j <= k < j + eq_run(t, j) ==> #[trigger] t[k] == '=',
        j + eq_run(t, j) < t.len() ==> t[j + eq_run(t, j)] != '=',
    decreases t.len() - j,
{
    if 0 <= j < t.len() && t[j] == '=' {
        lemma_eq_run(t, j + 1);
    }
}

pub fn scan_eq_run(v: &Vec<char>, j: usize) -> (r: usize)
    requires
        j <= v@.len(),
    ensures
        r == eq_run(v@, j as int) + j,
        j <= r <= v@.len(),
{
    proof {
        lemma_eq_run(v@, j as int);
    }
    let n = v.len();
    let mut k: usize = j;
    while k < n && v[k] == '='
        invariant
            j <= k <= n == v@.len(),
            eq_run(v@, j as int) + j == eq_run(v@, k as int) + k,
        decreases n - k,
    {
        k += 1;
    }
    k
}

/// A header line, once trimmed: `=` runs of equal length 1 to 6 at both
/// ends with content between them.
pub open spec fn header_at(t: Seq<char>) -> bool {
    let k = eq_run(t, 0);
    &&& 1 <= k <= 6
    &&& t.len() >= 2 * k + 1
    &&& forall|j: int| t.len() - k <= j < t.len() ==> #[trigger] t[j] == '='
    &&& t[t.len() - k - 1] != '='
}

/// The header level of a header line.
pub open spec fn header_level(t: Seq<char>) -> int {
    eq_run(t, 0)
}

/// The text of a header sits between the `=` runs, trimmed of blanks.
pub open spec fn header_mid(t: Seq<char>) -> Seq<char> {
    t.subrange(eq_run(t, 0), t.len() - eq_run(t, 0))
}

pub fn check_header(v: &Vec<char>, lo: usize, hi: usize) -> (r: bool)
    requires
        lo <= hi <= v@.len(),
    ensures
        r == header_at(v@.subrange(lo as int, hi as int)),
{
    let ghost t = v@.subrange(lo as int, hi as int);
    let tl = hi - lo;
    let ke = scan_eq_run(v, lo);
    proof {
        assert forall|j: int| 0 <= j <= tl implies eq_run(t, j) == if lo + j <= hi {
            if eq_run(v@, lo + j) <= hi - lo - j {
                eq_run(v@, lo + j)
            } else {
                hi - lo - j
            }
        } else {
            0
        } by {
            lemma_eq_run_subrange(v@, lo as int, hi as int, j);
        }
    }
    let k = if ke > hi {
        hi - lo
    } else {
        ke - lo
    };
    if !(1 <= k && k <= 6) {
        return false;
    }
    if tl < 2 * k + 1 {
        return false;
    }
    // trailing run of '=' of exactly length k
    let mut j: usize = 0;
    while j < k
        invariant
            0 <= j <= k,
            1 <= k <= 6,
            k == eq_run(t, 0),
            2 * k + 1 <= tl,
            lo + tl == hi <= v@.len(),
            t == v@.subrange(lo as int, hi as int),
            tl == t.len(),
            forall|m: int| tl - j <= m < tl ==> #[trigger] t[m] == '=',
        decreases k - j,
    {
        if v[hi - 1 - j] != '=' {
            proof {
                assert(t[tl - 1 - j] == v@[hi - 1 - j]);
                assert(tl - k <= tl - 1 - j < tl);
                assert(!header_at(t));
            }
            return false;
        }
        proof {
            assert(t[tl - 1 - j] == v@[hi - 1 - j]);
        }
        j += 1;
    }
    let back_ok = v[hi - 1 - k] != '=';
    proof {
        assert(t[tl - 1 - k] == v@[hi - 1 - k]);
    }
    back_ok
}

/// `eq_run` over a subrange agrees with `eq_run` over the base sequence,
/// cut off at the subrange's end.
pub proof fn lemma_eq_run_subrange(s: Seq<char>, lo: int, hi: int, j: int)
    requires
        0 <= lo <= hi <= s.len(),
        0 <= j <= hi - lo,
    ensures
        eq_run(s.subrange(lo, hi), j) == if eq_run(s, lo + j) <= hi - lo - j {
            eq_run(s, lo + j)
        } else {
            hi - lo - j
        },
    decreases hi - lo - j,
{
    let t = s.subrange(lo, hi);
    lemma_eq_run(s, lo + j);
    if j < hi - lo {
        assert(t[j] == s[lo + j]);
        if t[j] == '=' {
            lemma_eq_run_subrange(s, lo, hi, j + 1);
            assert(eq_run(t, j) == 1 + eq_run(t, j + 1));
            assert(eq_run(s, lo + j) == 1 + eq_run(s, lo + j + 1));
        } else {
            assert(eq_run(t, j) == 0);
            assert(eq_run(s, lo + j) == 0);
        }
    } else {
        assert(eq_run(t, j) == 0);
    }
}

// ---------------------------------------------------------------------------
// List markers
// ---------------------------------------------------------------------------

pub open spec fn is_roman_lower(c: char) -> bool {
    c == 'i' || c == 'v' || c == 'x' || c == 'l' || c == 'c' || c == 'd' || c == 'm'
}

pub open spec fn is_roman_upper(c: char) -> bool {
    c == 'I' || c == 'V' || c == 'X' || c == 'L' || c == 'C' || c == 'D' || c == 'M'
}

/// The first index at or after `j` where `pred_kind` no longer holds;
/// the run kinds are digits (0), roman lowercase (1), roman uppercase
/// (2), lowercase (3), uppercase (4).
pub open spec fn run_end(s: Seq<char>, j: int, kind: int) -> int
    decreases s.len() - j,
{
    if j < 0 || j >= s.len() || !run_char(s[j], kind) {
        j
    } else {
        run_end(s, j + 1, kind)
    }
}

pub open spec fn run_char(c: char, kind: int) -> bool {
    if kind == 0 {
        is_digit_char(c)
    } else if kind == 1 {
        is_roman_lower(c)
    } else if kind == 2 {
        is_roman_upper(c)
    } else if kind == 3 {
        is_lower_char(c)
    } else {
        is_upper_char(c)
    }
}

pub proof fn lemma_run_end(s: Seq<char>, j: int, kind: int)
    requires
        0 <= j <= s.len(),
    ensures
        j <= run_end(s, j, kind) <= s.len(),
        forall|k: int| j <= k < run_end(s, j, kind) ==> run_char(#[trigger] s[k], kind),
        run_end(s, j, kind) < s.len() ==> !run_char(s[run_end(s, j, kind)], kind),
    decreases s.len() - j,
{
    if j < s.len() && run_char(s[j], kind) {
        lemma_run_end(s, j + 1, kind);
    }
}

fn exec_run_char(c: char, kind: usize) -> (r: bool)
    requires
        kind <= 4,
    ensures
        r == run_char(c, kind as int),
{
    if kind == 0 {
        digit_char(c)
    } else if kind == 1 {
        c == 'i' || c == 'v' || c == 'x' || c == 'l' || c == 'c' || c == 'd' || c == 'm'
    } else if kind == 2 {
        c == 'I' || c == 'V' || c == 'X' || c == 'L' || c == 'C' || c == 'D' || c == 'M'
    } else if kind == 3 {
        lower_char(c)
    } else {
        upper_char(c)
    }
}

pub fn scan_run_end(v: &Vec<char>, j: usize, kind: usize) -> (r: usize)
    requires
        j <= v@.len(),
        kind <= 4,
    ensures
        r == run_end(v@, j as int, kind as int),
        j <= r <= v@.len(),
{
    proof {
        lemma_run_end(v@, j as int, kind as int);
    }
    let n = v.len();
    let mut k: usize = j;
    while k < n && exec_run_char(v[k], kind)
        invariant
            j <= k <= n == v@.len(),
            kind <= 4,
            run_end(v@, j as int, kind as int) == run_end(v@, k as int, kind as int),
        decreases n - k,
    {
        k += 1;
    }
    k
}

/// The marker of a list item line, if any: its type, suffix, and the
/// index one past the marker and its following space. Ordered markers
/// need a `.` or `)` suffix; unordered markers need none. Roman-numeral
/// runs are tried before alphabetic ones, so an `i.` item is read as a
/// roman numeral even in an otherwise alphabetic list.
pub open spec fn marker_of(s: Seq<char>) -> Option<(ListItemType, ListItemSuffix, int)> {
    let i = indent_of(s);
    if i + 1 < s.len() && (s[i] == '-' || s[i] == '*') && s[i + 1] == ' ' {
        let t = if s[i] == '-' {
            UnorderedListItemType::Hyphen
        } else {
            UnorderedListItemType::Asterisk
        };
        Some((ListItemType::Unordered(t), ListItemSuffix::NoSuffix, i + 2))
    } else if ordered_marker_of(s, 0, OrderedListItemType::Number) is Some {
        ordered_marker_of(s, 0, OrderedListItemType::Number)
    } else if ordered_marker_of(s, 1, OrderedListItemType::LowercaseRoman) is Some {
        ordered_marker_of(s, 1, OrderedListItemType::LowercaseRoman)
    } else if ordered_marker_of(s, 2, OrderedListItemType::UppercaseRoman) is Some {
        ordered_marker_of(s, 2, OrderedListItemType::UppercaseRoman)
    } else if ordered_marker_of(s, 3, OrderedListItemType::LowercaseAlphabet) is Some {
        ordered_marker_of(s, 3, OrderedListItemType::LowercaseAlphabet)
    } else {
        ordered_marker_of(s, 4, OrderedListItemType::UppercaseAlphabet)
    }
}

/// An ordered marker of the given run kind: a non-empty run, a `.` or
/// `)`, and a space.
pub open spec fn ordered_marker_of(s: Seq<char>, kind: int, t: OrderedListItemType) -> Option<
    (ListItemType, ListItemSuffix, int),
> {
    let i = indent_of(s);
    let e = run_end(s, i, kind);
    if e > i && e + 1 < s.len() && (s[e] == '.' || s[e] == ')') && s[e + 1] == ' ' {
        let suffix = if s[e] == '.' {
            ListItemSuffix::Period
        } else {
            ListItemSuffix::Paren
        };
        Some((ListItemType::Ordered(t), suffix, e + 2))
    } else {
        None
    }
}

/// Reads the marker of a list item line.
pub fn scan_marker(v: &Vec<char>) -> (r: Option<(ListItemType, ListItemSuffix, usize)>)
    ensures
        match r {
            Some(m) => marker_of(v@) == Some((m.0, m.1, m.2 as int)) && m.2 <= v@.len(),
            None => marker_of(v@) is None,
        },
{
    let n = v.len();
    let (ind, _) = scan_trim(v);
    if n - ind > 1 && (v[ind] == '-' || v[ind] == '*') && v[ind + 1] == ' ' {
        let t = if v[ind] == '-' {
            UnorderedListItemType::Hyphen
        } else {
            UnorderedListItemType::Asterisk
        };
        return Some((ListItemType::Unordered(t), ListItemSuffix::NoSuffix, ind + 2));
    }
    let kinds: [usize; 5] = [0, 1, 2, 3, 4];
    let types: [OrderedListItemType; 5] = [
        OrderedListItemType::Number,
        OrderedListItemType::LowercaseRoman,
        OrderedListItemType::UppercaseRoman,
        OrderedListItemType::LowercaseAlphabet,
        OrderedListItemType::UppercaseAlphabet,
    ];
    let mut ki: usize = 0;
    while ki < 5
        invariant
            0 <= ki <= 5,
            ind == indent_of(v@),
            ind <= v@.len() == n,
            kinds@ =~= seq![0usize, 1usize, 2usize, 3usize, 4usize],
            types@ =~= seq![
                OrderedListItemType::Number,
                OrderedListItemType::LowercaseRoman,
                OrderedListItemType::UppercaseRoman,
                OrderedListItemType::LowercaseAlphabet,
                OrderedListItemType::UppercaseAlphabet,
            ],
            forall|k: int| 0 <= k < ki ==> ordered_marker_of(
                v@,
                kinds@[k] as int,
                #[trigger] types@[k],
            ) is None,
        decreases 5 - ki,
    {
        let e = scan_run_end(v, ind, kinds[ki]);
        if e > ind && n - e > 1 && (v[e] == '.' || v[e] == ')') && v[e + 1] == ' ' {
            let suffix = if v[e] == '.' {
                ListItemSuffix::Period
            } else {
                ListItemSuffix::Paren
            };
            return Some((ListItemType::Ordered(types[ki]), suffix, e + 2));
        }
        ki += 1;
    }
    None
}

/// The todo checkbox after a marker: `[c] ` with a state character.
pub open spec fn todo_of(s: Seq<char>, p: int) -> Option<TodoStatus> {
    if p + 3 < s.len() && s[p] == '[' && s[p + 2] == ']' && s[p + 3] == ' ' {
        todo_status_of(s[p + 1])
    } else {
        None
    }
}

pub open spec fn todo_status_of(c: char) -> Option<TodoStatus> {
    if c == ' ' {
        Some(TodoStatus::Incomplete)
    } else if c == '.' {
        Some(TodoStatus::PartiallyComplete1)
    } else if c == 'o' {
        Some(TodoStatus::PartiallyComplete2)
    } else if c == 'O' {
        Some(TodoStatus::PartiallyComplete3)
    } else if c == 'X' {
        Some(TodoStatus::Complete)
    } else if c == '-' {
        Some(TodoStatus::Rejected)
    } else {
        None
    }
}

pub fn scan_todo(v: &Vec<char>, p: usize) -> (r: Option<TodoStatus>)
    requires
        p <= v@.len(),
    ensures
        r == todo_of(v@, p as int),
{
    let n = v.len();
    if !(n - p > 3 && v[p] == '[' && v[p + 2] == ']' && v[p + 3] == ' ') {
        return None;
    }
    let c = v[p + 1];
    if c == ' ' {
        Some(TodoStatus::Incomplete)
    } else if c == '.' {
        Some(TodoStatus::PartiallyComplete1)
    } else if c == 'o' {
        Some(TodoStatus::PartiallyComplete2)
    } else if c == 'O' {
        Some(TodoStatus::PartiallyComplete3)
    } else if c == 'X' {
        Some(TodoStatus::Complete)
    } else if c == '-' {
        Some(TodoStatus::Rejected)
    } else {
        None
    }
}

} // verus!
