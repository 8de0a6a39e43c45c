//! The block grammar: the top-level loop that reduces every line of a
//! document to a block element or a comment.
//!
//! Alternatives are tried in a fixed priority order, with blank lines and
//! comments handled first and a catch-all that accepts any line as an
//! `UnrecognizedLine` last, so the grammar is total: parsing consumes at
//! least one line at every step and never rejects text.

use vstd::prelude::*;
use crate::chars::{
    all_blank, alpha_char, find_char, find_from, find_pair, find_pair_from, indent_of,
    is_alpha_char, lemma_indent_of_bounds, lemma_trim_end_of_bounds, slice_to_string, slice_vec,
    trim_end_of,
};
use crate::inline::{container_matches, count_from, diary_date_ok, region_is, tags_at,
    tags_end};
use crate::elements::{Blockquote, BlockElement, Cell, CellSpan, Comment, DefinitionList,
    Definition, Divider, EnhancedListItem, Header, LineComment, List, ListItemContent, MathBlock,
    MultiLineComment, Page, Paragraph, Placeholder, PreformattedText, Row, Table, Term,
    TermAndDefinitions, InlineElement, Tags};
use crate::linescan::{eq_run, header_mid, todo_of};
use crate::location::{Located, Position, Region};
use crate::linescan::{
    blank_line, check_blank, check_header, header_at, lemma_trim_bounds, marker_of, scan_marker,
    scan_trim, trimmed,
};

verus! {

// ---------------------------------------------------------------------------
// Line kinds beyond linescan's
// ---------------------------------------------------------------------------

/// A table line: its first non-blank character is a pipe.
pub open spec fn table_line_at(s: Seq<char>) -> bool {
    !all_blank(s) && s[indent_of(s)] == '|'
}

/// A divider: four or more hyphens and nothing else.
pub open spec fn divider_line_at(s: Seq<char>) -> bool {
    let i = indent_of(s);
    let e = trim_end_of(s);
    !all_blank(s) && e - i >= 4 && forall|j: int| i <= j < e ==> s[j] == '-'
}

/// The opening fence of a preformatted block: `{{{`, with an optional
/// language or metadata after it.
pub open spec fn pre_open_at(s: Seq<char>) -> bool {
    let i = indent_of(s);
    !all_blank(s) && trim_end_of(s) - i >= 3 && s[i] == '{' && s[i + 1] == '{' && s[i + 2]
        == '{'
}

/// The closing fence of a preformatted block: `}}}` alone.
pub open spec fn pre_close_at(s: Seq<char>) -> bool {
    let i = indent_of(s);
    !all_blank(s) && trim_end_of(s) - i == 3 && s[i] == '}' && s[i + 1] == '}' && s[i + 2]
        == '}'
}

/// The opening fence of a math block: `{{$`, with an optional
/// `%environment%` after it.
pub open spec fn math_open_at(s: Seq<char>) -> bool {
    let i = indent_of(s);
    !all_blank(s) && trim_end_of(s) - i >= 3 && s[i] == '{' && s[i + 1] == '{' && s[i + 2]
        == '$'
}

/// The closing fence of a math block: `}}$` alone.
pub open spec fn math_close_at(s: Seq<char>) -> bool {
    let i = indent_of(s);
    !all_blank(s) && trim_end_of(s) - i == 3 && s[i] == '}' && s[i + 1] == '}' && s[i + 2]
        == '$'
}

/// A blockquote line: `>` at the line start, or an indent of four or
/// more.
pub open spec fn quote_line_at(s: Seq<char>) -> bool {
    (s.len() > 0 && s[0] == '>') || (!all_blank(s) && indent_of(s) >= 4)
}

/// The content of a blockquote line: after `> `, after `>`, or after the
/// four-character indent.
pub open spec fn quote_strip(s: Seq<char>) -> Seq<char> {
    if s.len() > 0 && s[0] == '>' {
        if s.len() >= 2 && s[1] == ' ' {
            s.skip(2)
        } else {
            s.skip(1)
        }
    } else {
        s.skip(4)
    }
}

/// A standalone tag-sequence line: the trimmed line is one maximal tag
/// run and nothing else.
pub open spec fn tags_line_at(s: Seq<char>) -> bool {
    !all_blank(s) && tags_at(trimmed(s), 0) && tags_end(trimmed(s), 0) == Some(
        trimmed(s).len() as int,
    )
}

/// A comment line: `%%` at the very start of the line.
pub open spec fn comment_line_at(s: Seq<char>) -> bool {
    s.len() >= 2 && s[0] == '%' && s[1] == '%'
}

/// A multi-line comment opener: `%%+` at the very start of the line.
pub open spec fn multi_comment_at(s: Seq<char>) -> bool {
    s.len() >= 3 && s[0] == '%' && s[1] == '%' && s[2] == '+'
}

/// A placeholder line: `%` and a directive name, not a comment.
pub open spec fn placeholder_start_at(s: Seq<char>) -> bool {
    let t = trimmed(s);
    !all_blank(s) && t.len() >= 2 && t[0] == '%' && is_alpha_char(t[1])
}

/// The first index at or after `j` that holds no letter.
pub open spec fn alpha_end(s: Seq<char>, j: int) -> int
    decreases s.len() - j,
{
    if j < 0 || j >= s.len() || !is_alpha_char(s[j]) {
        j
    } else {
        alpha_end(s, j + 1)
    }
}

pub proof fn lemma_alpha_end(s: Seq<char>, j: int)
    requires
        0 <= j <= s.len(),
    ensures
        j <= alpha_end(s, j) <= s.len(),
        forall|k: int| j <= k < alpha_end(s, j) ==> is_alpha_char(#[trigger] s[k]),
        alpha_end(s, j) < s.len() ==> !is_alpha_char(s[alpha_end(s, j)]),
    decreases s.len() - j,
{
    if j < s.len() && is_alpha_char(s[j]) {
        lemma_alpha_end(s, j + 1);
    }
}

/// The directive name of a placeholder line: the letters after `%`.
pub open spec fn placeholder_name(t: Seq<char>) -> Seq<char> {
    t.subrange(1, alpha_end(t, 1))
}

/// The value of a placeholder line: what follows the blank after the
/// name, or empty when nothing does.
pub open spec fn placeholder_value(t: Seq<char>) -> Seq<char> {
    let e = alpha_end(t, 1);
    if e < t.len() && t[e] == ' ' {
        t.skip(e + 1)
    } else {
        Seq::empty()
    }
}

pub open spec fn title_chars() -> Seq<char> {
    seq!['t', 'i', 't', 'l', 'e']
}

pub open spec fn date_chars() -> Seq<char> {
    seq!['d', 'a', 't', 'e']
}

pub open spec fn template_chars() -> Seq<char> {
    seq!['t', 'e', 'm', 'p', 'l', 'a', 't', 'e']
}

pub open spec fn nohtml_chars() -> Seq<char> {
    seq!['n', 'o', 'h', 't', 'm', 'l']
}

/// A valid placeholder line: the name is a known directive with the
/// value shape it needs, or any other name with a non-empty value.
pub open spec fn placeholder_valid(s: Seq<char>) -> bool {
    let t = trimmed(s);
    let name = placeholder_name(t);
    let value = placeholder_value(t);
    &&& placeholder_start_at(s)
    &&& alpha_end(t, 1) == t.len() || t[alpha_end(t, 1)] == ' '
    &&& if name == title_chars() {
        value.len() > 0
    } else if name == date_chars() {
        diary_date_ok(value)
    } else if name == template_chars() {
        value.len() > 0
    } else if name == nohtml_chars() {
        value.len() == 0
    } else {
        value.len() > 0
    }
}

/// A term line of a definition list: non-blank text, then `::`, then a
/// definition or nothing.
pub open spec fn term_line_at(s: Seq<char>) -> bool {
    match find_pair_from(s, 0, ':', ':') {
        Some(dd) => {
            &&& dd > 0
            &&& !all_blank(s.subrange(0, dd))
            &&& s[0] != ':'
            &&& (dd + 2 == s.len() || s[dd + 2] == ' ')
        },
        None => false,
    }
}

/// A definition-only line: `::` and a definition after the indent.
pub open spec fn def_line_at(s: Seq<char>) -> bool {
    let i = indent_of(s);
    !all_blank(s) && trim_end_of(s) - i > 3 && s[i] == ':' && s[i + 1] == ':' && s[i + 2]
        == ' '
}

/// A plain text line: what the paragraph rule accepts. It is non-blank
/// and begins none of the other constructs; this is what lets paragraphs
/// sit early in the priority order without shadowing them.
pub open spec fn plain_line(s: Seq<char>) -> bool {
    &&& !all_blank(s)
    &&& !comment_line_at(s)
    &&& trimmed(s)[0] != '%'
    &&& !header_at(trimmed(s))
    &&& marker_of(s) is None
    &&& trimmed(s)[0] != '|'
    &&& !pre_open_at(s)
    &&& !math_open_at(s)
    &&& !quote_line_at(s)
    &&& !divider_line_at(s)
    &&& !tags_line_at(s)
    &&& !term_line_at(s)
}

// ---------------------------------------------------------------------------
// Exec checks for the line kinds
// ---------------------------------------------------------------------------

pub fn check_table_line(v: &Vec<char>) -> (r: bool)
    ensures
        r == table_line_at(v@),
{
    let (i, _e) = scan_trim(v);
    if check_blank(v) {
        return false;
    }
    proof {
        lemma_trim_bounds(v@);
    }
    v[i] == '|'
}

pub fn check_divider_line(v: &Vec<char>) -> (r: bool)
    ensures
        r == divider_line_at(v@),
{
    let (i, e) = scan_trim(v);
    if check_blank(v) {
        return false;
    }
    proof {
        lemma_trim_bounds(v@);
    }
    if e - i < 4 {
        return false;
    }
    let mut j: usize = i;
    while j < e
        invariant
            i <= j <= e <= v@.len(),
            i == indent_of(v@),
            e == trim_end_of(v@),
            !all_blank(v@),
            e - i >= 4,
            forall|k: int| i <= k < j ==> v@[k] == '-',
        decreases e - j,
    {
        if v[j] != '-' {
            assert(!divider_line_at(v@));
            return false;
        }
        j += 1;
    }
    true
}

/// Checks for a three-character opener or closer at the head of the
/// trimmed line; `exact` demands the trimmed line be those three
/// characters alone.
fn check_fence(v: &Vec<char>, c0: char, c1: char, c2: char, exact: bool) -> (r: bool)
    ensures
        r == {
            let i = indent_of(v@);
            &&& !all_blank(v@)
            &&& if exact {
                trim_end_of(v@) - i == 3
            } else {
                trim_end_of(v@) - i >= 3
            }
            &&& v@[i] == c0
            &&& v@[i + 1] == c1
            &&& v@[i + 2] == c2
        },
{
    let (i, e) = scan_trim(v);
    if check_blank(v) {
        return false;
    }
    proof {
        lemma_trim_bounds(v@);
    }
    if e - i < 3 {
        return false;
    }
    if exact && e - i != 3 {
        return false;
    }
    v[i] == c0 && v[i + 1] == c1 && v[i + 2] == c2
}

pub fn check_pre_open(v: &Vec<char>) -> (r: bool)
    ensures
        r == pre_open_at(v@),
{
    check_fence(v, '{', '{', '{', false)
}

pub fn check_pre_close(v: &Vec<char>) -> (r: bool)
    ensures
        r == pre_close_at(v@),
{
    check_fence(v, '}', '}', '}', true)
}

pub fn check_math_open(v: &Vec<char>) -> (r: bool)
    ensures
        r == math_open_at(v@),
{
    check_fence(v, '{', '{', '$', false)
}

pub fn check_math_close(v: &Vec<char>) -> (r: bool)
    ensures
        r == math_close_at(v@),
{
    check_fence(v, '}', '}', '$', true)
}

pub fn check_quote_line(v: &Vec<char>) -> (r: bool)
    ensures
        r == quote_line_at(v@),
{
    let n = v.len();
    if n > 0 && v[0] == '>' {
        return true;
    }
    if check_blank(v) {
        return false;
    }
    let (i, _e) = scan_trim(v);
    i >= 4
}

pub fn check_tags_line(v: &Vec<char>) -> (r: bool)
    ensures
        r == tags_line_at(v@),
{
    if check_blank(v) {
        return false;
    }
    let (i, e) = scan_trim(v);
    let t = slice_vec(v, i, e);
    if t.len() == 0 {
        return false;
    }
    if t[0] != ':' {
        return false;
    }
    match crate::inline::scan_tags(&t, 0) {
        Some((_vs, end)) => end == t.len(),
        None => false,
    }
}

pub fn check_comment_line(v: &Vec<char>) -> (r: bool)
    ensures
        r == comment_line_at(v@),
{
    let n = v.len();
    n >= 2 && v[0] == '%' && v[1] == '%'
}

pub fn check_multi_comment(v: &Vec<char>) -> (r: bool)
    ensures
        r == multi_comment_at(v@),
{
    let n = v.len();
    n >= 3 && v[0] == '%' && v[1] == '%' && v[2] == '+'
}

pub fn scan_alpha_end(v: &Vec<char>, j: usize) -> (r: usize)
    requires
        j <= v@.len(),
    ensures
        r == alpha_end(v@, j as int),
        j <= r <= v@.len(),
{
    proof {
        lemma_alpha_end(v@, j as int);
    }
    let n = v.len();
    let mut k: usize = j;
    while k < n && alpha_char(v[k])
        invariant
            j <= k <= n == v@.len(),
            alpha_end(v@, j as int) == alpha_end(v@, k as int),
        decreases n - k,
    {
        k += 1;
    }
    k
}

pub fn check_term_line(v: &Vec<char>) -> (r: bool)
    ensures
        r == term_line_at(v@),
{
    let n = v.len();
    match find_pair(v, 0, ':', ':') {
        Some(dd) => {
            if dd == 0 || v[0] == ':' {
                return false;
            }
            let pre = slice_vec(v, 0, dd);
            if check_blank(&pre) {
                return false;
            }
            n - dd == 2 || v[dd + 2] == ' '
        },
        None => false,
    }
}

pub fn check_def_line(v: &Vec<char>) -> (r: bool)
    ensures
        r == def_line_at(v@),
{
    if check_blank(v) {
        return false;
    }
    let (i, e) = scan_trim(v);
    proof {
        lemma_trim_bounds(v@);
    }
    e - i > 3 && v[i] == ':' && v[i + 1] == ':' && v[i + 2] == ' '
}

pub fn check_plain(v: &Vec<char>) -> (r: bool)
    ensures
        r == plain_line(v@),
{
    if check_blank(v) {
        return false;
    }
    if check_comment_line(v) {
        return false;
    }
    proof {
        lemma_trim_bounds(v@);
    }
    let (i, e) = scan_trim(v);
    proof {
        assert(trimmed(v@)[0] == v@[i as int]);
    }
    if v[i] == '%' || v[i] == '|' {
        return false;
    }
    if check_header(v, i, e) {
        return false;
    }
    match scan_marker(v) {
        Some(_) => {
            return false;
        },
        None => {},
    }
    if check_pre_open(v) || check_math_open(v) || check_quote_line(v) || check_divider_line(v)
        || check_tags_line(v) || check_term_line(v) {
        return false;
    }
    true
}

// ---------------------------------------------------------------------------
// Runs of lines
// ---------------------------------------------------------------------------

/// The length of the run of plain lines starting at `li`.
pub open spec fn plain_run(ls: Seq<Seq<char>>, li: int) -> int
    decreases ls.len() - li,
{
    if li < 0 || li >= ls.len() || !plain_line(ls[li]) {
        0
    } else {
        1 + plain_run(ls, li + 1)
    }
}

/// The length of the run of blockquote lines starting at `li`.
pub open spec fn quote_run(ls: Seq<Seq<char>>, li: int) -> int
    decreases ls.len() - li,
{
    if li < 0 || li >= ls.len() || !quote_line_at(ls[li]) {
        0
    } else {
        1 + quote_run(ls, li + 1)
    }
}

/// The length of the run of table lines starting at `li`.
pub open spec fn table_run(ls: Seq<Seq<char>>, li: int) -> int
    decreases ls.len() - li,
{
    if li < 0 || li >= ls.len() || !table_line_at(ls[li]) {
        0
    } else {
        1 + table_run(ls, li + 1)
    }
}

/// The length of the run of list-marker lines starting at `li`.
pub open spec fn marker_run(ls: Seq<Seq<char>>, li: int) -> int
    decreases ls.len() - li,
{
    if li < 0 || li >= ls.len() || marker_of(ls[li]) is None {
        0
    } else {
        1 + marker_run(ls, li + 1)
    }
}

/// The length of the run of definition-list lines after the first term
/// line: term lines and definition-only lines.
pub open spec fn dl_run(ls: Seq<Seq<char>>, li: int) -> int
    decreases ls.len() - li,
{
    if li < 0 || li >= ls.len() || !(term_line_at(ls[li]) || def_line_at(ls[li])) {
        0
    } else {
        1 + dl_run(ls, li + 1)
    }
}

/// The first line at or after `li` that closes a preformatted block.
pub open spec fn pre_close_idx(ls: Seq<Seq<char>>, li: int) -> Option<int>
    decreases ls.len() - li,
{
    if li < 0 || li >= ls.len() {
        None
    } else if pre_close_at(ls[li]) {
        Some(li)
    } else {
        pre_close_idx(ls, li + 1)
    }
}

/// The first line at or after `li` that closes a math block.
pub open spec fn math_close_idx(ls: Seq<Seq<char>>, li: int) -> Option<int>
    decreases ls.len() - li,
{
    if li < 0 || li >= ls.len() {
        None
    } else if math_close_at(ls[li]) {
        Some(li)
    } else {
        math_close_idx(ls, li + 1)
    }
}

/// The least index at or after `from` where `+%%` occurs.
pub open spec fn plus_close_of(s: Seq<char>, from: int) -> Option<int>
    decreases s.len() - from,
{
    if from < 0 || from + 2 >= s.len() + 2 || from >= s.len() {
        None
    } else if from + 2 < s.len() && s[from] == '+' && s[from + 1] == '%' && s[from + 2] == '%' {
        Some(from)
    } else {
        plus_close_of(s, from + 1)
    }
}

pub proof fn lemma_plus_close_of(s: Seq<char>, from: int)
    requires
        0 <= from,
    ensures
        match plus_close_of(s, from) {
            Some(q) => from <= q && q + 2 < s.len() && s[q] == '+' && s[q + 1] == '%' && s[q + 2]
                == '%',
            None => true,
        },
    decreases s.len() - from,
{
    if 0 <= from < s.len() {
        if !(from + 2 < s.len() && s[from] == '+' && s[from + 1] == '%' && s[from + 2] == '%') {
            lemma_plus_close_of(s, from + 1);
        }
    }
}

/// Finds the least index at or after `from` where `+%%` occurs.
pub fn scan_plus_close(v: &Vec<char>, from: usize) -> (r: Option<usize>)
    requires
        from <= v@.len(),
    ensures
        match r {
            Some(q) => plus_close_of(v@, from as int) == Some(q as int) && from <= q && q + 2
                < v@.len(),
            None => plus_close_of(v@, from as int) is None,
        },
{
    proof {
        lemma_plus_close_of(v@, from as int);
    }
    let n = v.len();
    let mut k: usize = from;
    while k < n
        invariant
            from <= k <= n == v@.len(),
            plus_close_of(v@, from as int) == plus_close_of(v@, k as int),
        decreases n - k,
    {
        if n - k > 2 && v[k] == '+' && v[k + 1] == '%' && v[k + 2] == '%' {
            return Some(k);
        }
        k += 1;
    }
    None
}

/// The line at or after `li` on which a multi-line comment closes; the
/// search on the opening line starts after `%%+`.
pub open spec fn mc_close_idx(ls: Seq<Seq<char>>, li: int, first: bool) -> Option<int>
    decreases ls.len() - li,
{
    if li < 0 || li >= ls.len() {
        None
    } else if plus_close_of(ls[li], if first {
        3
    } else {
        0
    }) is Some {
        Some(li)
    } else {
        mc_close_idx(ls, li + 1, false)
    }
}

// ---------------------------------------------------------------------------
// The block dispatch
// ---------------------------------------------------------------------------

/// Which rule fires at a line.
#[derive(Clone, Copy, Debug, PartialEq, Eq, Structural)]
pub enum BlockKind {
    Empty,
    CommentLine,
    CommentMulti,
    Header,
    Paragraph,
    List,
    Table,
    Pre,
    Math,
    Quote,
    Divider,
    TagsLine,
    Placeholder,
    Definition,
    Unrecognized,
}

/// The rule that fires at line `li` and the number of lines it consumes:
/// the grammar's fixed priority order. An unclosed fence is not a block;
/// its opening line falls through to the catch-all.
pub open spec fn block_take(ls: Seq<Seq<char>>, li: int) -> (BlockKind, int) {
    let s = ls[li];
    if blank_line(s) {
        (BlockKind::Empty, 1)
    } else if comment_line_at(s) {
        if multi_comment_at(s) {
            match mc_close_idx(ls, li, true) {
                Some(j) => (BlockKind::CommentMulti, j - li + 1),
                None => (BlockKind::CommentMulti, ls.len() - li),
            }
        } else {
            (BlockKind::CommentLine, 1)
        }
    } else if header_at(trimmed(s)) {
        (BlockKind::Header, 1)
    } else if plain_line(s) {
        (BlockKind::Paragraph, plain_run(ls, li))
    } else if marker_of(s) is Some {
        (BlockKind::List, marker_run(ls, li))
    } else if table_line_at(s) {
        (BlockKind::Table, table_run(ls, li))
    } else if pre_open_at(s) {
        match pre_close_idx(ls, li + 1) {
            Some(j) => (BlockKind::Pre, j - li + 1),
            None => (BlockKind::Unrecognized, 1),
        }
    } else if math_open_at(s) {
        match math_close_idx(ls, li + 1) {
            Some(j) => (BlockKind::Math, j - li + 1),
            None => (BlockKind::Unrecognized, 1),
        }
    } else if quote_line_at(s) {
        (BlockKind::Quote, quote_run(ls, li))
    } else if divider_line_at(s) {
        (BlockKind::Divider, 1)
    } else if tags_line_at(s) {
        (BlockKind::TagsLine, 1)
    } else if placeholder_valid(s) {
        (BlockKind::Placeholder, 1)
    } else if term_line_at(s) {
        (BlockKind::Definition, dl_run(ls, li))
    } else {
        (BlockKind::Unrecognized, 1)
    }
}

pub proof fn lemma_run_bounds(ls: Seq<Seq<char>>, li: int)
    requires
        0 <= li <= ls.len(),
    ensures
        0 <= plain_run(ls, li) <= ls.len() - li,
        0 <= quote_run(ls, li) <= ls.len() - li,
        0 <= table_run(ls, li) <= ls.len() - li,
        0 <= marker_run(ls, li) <= ls.len() - li,
        0 <= dl_run(ls, li) <= ls.len() - li,
    decreases ls.len() - li,
{
    if li < ls.len() {
        lemma_run_bounds(ls, li + 1);
    }
}

pub proof fn lemma_close_idx_bounds(ls: Seq<Seq<char>>, li: int)
    requires
        0 <= li,
    ensures
        pre_close_idx(ls, li) is Some ==> li <= pre_close_idx(ls, li)->Some_0 < ls.len(),
        math_close_idx(ls, li) is Some ==> li <= math_close_idx(ls, li)->Some_0 < ls.len(),
        mc_close_idx(ls, li, true) is Some ==> li <= mc_close_idx(ls, li, true)->Some_0
            < ls.len(),
        mc_close_idx(ls, li, false) is Some ==> li <= mc_close_idx(ls, li, false)->Some_0
            < ls.len(),
    decreases ls.len() - li,
{
    if 0 <= li < ls.len() {
        lemma_close_idx_bounds(ls, li + 1);
    }
}

/// Every rule consumes at least one line and stays within the document:
/// the progress fact that makes the block grammar total.
pub proof fn lemma_block_take(ls: Seq<Seq<char>>, li: int)
    requires
        0 <= li < ls.len(),
    ensures
        1 <= block_take(ls, li).1,
        li + block_take(ls, li).1 <= ls.len(),
{
    lemma_run_bounds(ls, li);
    lemma_run_bounds(ls, li + 1);
    lemma_close_idx_bounds(ls, li);
    lemma_close_idx_bounds(ls, li + 1);
}

// ---------------------------------------------------------------------------
// What each block holds
// ---------------------------------------------------------------------------

/// The last column of a line: 1 even when the line is empty.
pub open spec fn line_end_col(s: Seq<char>) -> int {
    if s.len() == 0 {
        1
    } else {
        s.len() as int
    }
}

/// A block or comment spanning lines `li+1 ..= li+cnt` covers whole
/// lines: column 1 to the last column of its last line.
pub open spec fn block_region_is(r: Region, ls: Seq<Seq<char>>, li: int, cnt: int) -> bool {
    &&& r.start.line == li + 1
    &&& r.start.column == 1
    &&& r.end.line == li + cnt
    &&& r.end.column == line_end_col(ls[li + cnt - 1])
}

/// The header text sits between the `=` runs, with surrounding blanks
/// trimmed; these are its bounds within the raw line.
pub open spec fn header_text_lo(s: Seq<char>) -> int {
    let t = trimmed(s);
    if all_blank(header_mid(t)) {
        indent_of(s) + eq_run(t, 0)
    } else {
        indent_of(s) + eq_run(t, 0) + indent_of(header_mid(t))
    }
}

pub open spec fn header_text_hi(s: Seq<char>) -> int {
    let t = trimmed(s);
    if all_blank(header_mid(t)) {
        indent_of(s) + eq_run(t, 0)
    } else {
        indent_of(s) + eq_run(t, 0) + trim_end_of(header_mid(t))
    }
}

/// A header: its level is the length of the `=` runs, it is centered
/// when indented, and its content is the inline reading of the text.
pub open spec fn header_matches(h: Header, s: Seq<char>, ln: int) -> bool {
    &&& h.level == eq_run(trimmed(s), 0)
    &&& h.centered == (indent_of(s) > 0)
    &&& container_matches(
        h.content.elements@,
        s.subrange(header_text_lo(s), header_text_hi(s)),
        header_text_lo(s),
        ln,
    )
}

/// A paragraph's elements are the inline readings of its lines, in
/// order: each line contributes its own elements, and no merging happens
/// across lines.
pub open spec fn para_matches(es: Seq<Located<InlineElement>>, ls: Seq<Seq<char>>, li: int, end: int)
    -> bool
    decreases end - li,
{
    if li >= end {
        es.len() == 0
    } else {
        let s = ls[li];
        let c = count_from(s, 0, false) as int;
        &&& es.len() >= c
        &&& container_matches(es.take(c), s, 0, li + 1)
        &&& para_matches(es.skip(c), ls, li + 1, end)
    }
}

/// A blockquote holds its lines with the quote prefix stripped.
pub open spec fn quote_matches(q: Blockquote, ls: Seq<Seq<char>>, li: int, cnt: int) -> bool {
    &&& q.lines@.len() == cnt
    &&& forall|j: int| 0 <= j < cnt ==> (#[trigger] q.lines@[j])@ == quote_strip(ls[li + j])
}

/// What follows the three fence characters on a fence line, trimmed.
pub open spec fn fence_attr(s: Seq<char>) -> Seq<char> {
    trimmed(trimmed(s).skip(3))
}

/// A preformatted block: an optional language or a `key=value` pair from
/// the opening fence, and the raw lines between the fences.
pub open spec fn pre_matches(p: PreformattedText, ls: Seq<Seq<char>>, li: int, cnt: int) -> bool {
    let attr = fence_attr(ls[li]);
    &&& match find_from(attr, 0, '=') {
        Some(e) => {
            &&& p.lang is None
            &&& p.metadata@.len() == 1
            &&& p.metadata@[0].0@ == attr.subrange(0, e)
            &&& p.metadata@[0].1@ == crate::inline::unquote(attr.skip(e + 1))
        },
        None => if attr.len() == 0 {
            p.lang is None && p.metadata@.len() == 0
        } else {
            p.lang matches Some(l) && l@ == attr && p.metadata@.len() == 0
        },
    }
    &&& p.lines@.len() == cnt - 2
    &&& forall|j: int| 0 <= j < cnt - 2 ==> (#[trigger] p.lines@[j])@ == ls[li + 1 + j]
}

/// The `%name%` environment of a math block's opening fence, if any.
pub open spec fn math_env_of(s: Seq<char>) -> Option<Seq<char>> {
    let a = fence_attr(s);
    if a.len() >= 3 && a[0] == '%' && a[a.len() - 1] == '%' {
        Some(a.subrange(1, a.len() - 1))
    } else {
        None
    }
}

/// A math block: its optional environment name and the raw lines
/// between the fences.
pub open spec fn math_matches(m: MathBlock, ls: Seq<Seq<char>>, li: int, cnt: int) -> bool {
    &&& match (m.environment, math_env_of(ls[li])) {
        (Some(e), Some(v)) => e@ == v,
        (None, None) => true,
        _ => false,
    }
    &&& m.lines@.len() == cnt - 2
    &&& forall|j: int| 0 <= j < cnt - 2 ==> (#[trigger] m.lines@[j])@ == ls[li + 1 + j]
}

/// A placeholder: the directive its name denotes, with its value.
pub open spec fn placeholder_matches(p: Placeholder, s: Seq<char>) -> bool {
    let t = trimmed(s);
    let name = placeholder_name(t);
    let value = placeholder_value(t);
    if name == title_chars() {
        p matches Placeholder::Title(v) && v@ == value
    } else if name == date_chars() {
        p matches Placeholder::Date(d) && crate::inline::date_matches(d, value)
    } else if name == template_chars() {
        p matches Placeholder::Template(v) && v@ == value
    } else if name == nohtml_chars() {
        p is NoHtml
    } else {
        p matches Placeholder::Other { name: n, value: v } && n@ == name && v@ == value
    }
}

// ---------------------------------------------------------------------------
// Tables
// ---------------------------------------------------------------------------

/// A divider row: only pipes, hyphens, pluses and colons.
pub open spec fn row_divider_at(s: Seq<char>) -> bool {
    forall|j: int| indent_of(s) <= j < trim_end_of(s) ==> (#[trigger] s[j] == '|' || s[j] == '-'
        || s[j] == '+' || s[j] == ':')
}

/// One cell, covering `s[a..b)` between two pipes: blank is empty, `>`
/// and `\/` are span markers, anything else is inline content, trimmed.
pub open spec fn cell_matches(c: Located<Cell>, s: Seq<char>, a: int, b: int, ln: int) -> bool {
    let sub = s.subrange(a, b);
    let cs = a + indent_of(sub);
    let ce = a + trim_end_of(sub);
    &&& region_is(c.region, ln, a + 1, b)
    &&& if all_blank(sub) {
        c.element is Empty
    } else if ce - cs == 1 && s[cs] == '>' {
        c.element == Cell::Span(CellSpan::FromLeft)
    } else if ce - cs == 2 && s[cs] == '\\' && s[cs + 1] == '/' {
        c.element == Cell::Span(CellSpan::FromAbove)
    } else {
        c.element matches Cell::Content(cc) && container_matches(
            cc.elements@,
            s.subrange(cs, ce),
            cs,
            ln,
        )
    }
}

/// The cells after the pipe at `p`: one per pipe-delimited stretch; a
/// trailing stretch with no closing pipe degrades to an empty cell.
pub open spec fn cells_match(cells: Seq<Located<Cell>>, s: Seq<char>, p: int, ln: int) -> bool
    decreases s.len() - p,
        via cells_match_decreases
{
    if p + 1 >= trim_end_of(s) {
        cells.len() == 0
    } else {
        match find_from(s, p + 1, '|') {
            Some(q) => cells.len() >= 1 && cell_matches(cells[0], s, p + 1, q, ln)
                && cells_match(cells.drop_first(), s, q, ln),
            None => cells.len() == 1 && region_is(
                cells[0].region,
                ln,
                p + 2,
                trim_end_of(s),
            ) && cells[0].element is Empty,
        }
    }
}

#[via_fn]
proof fn cells_match_decreases(cells: Seq<Located<Cell>>, s: Seq<char>, p: int, ln: int) {
    lemma_trim_end_of_bounds(s);
    if 0 <= p + 1 <= s.len() && p + 1 < trim_end_of(s) {
        crate::chars::lemma_find_from(s, p + 1, '|');
    }
}

/// One table row: a divider row, or content cells starting at the first
/// pipe.
pub open spec fn row_matches(r: Located<Row>, s: Seq<char>, ln: int) -> bool {
    &&& region_is(r.region, ln, 1, line_end_col(s))
    &&& if row_divider_at(s) {
        r.element is Divider
    } else {
        r.element matches Row::Content { cells } && cells_match(cells@, s, indent_of(s), ln)
    }
}

/// A table: one row per line, centered when its first line is indented.
pub open spec fn table_matches(t: Table, ls: Seq<Seq<char>>, li: int, cnt: int) -> bool {
    &&& t.centered == (indent_of(ls[li]) > 0)
    &&& t.rows@.len() == cnt
    &&& forall|j: int| 0 <= j < cnt ==> row_matches(#[trigger] t.rows@[j], ls[li + j], li + j + 1)
}

// ---------------------------------------------------------------------------
// Definition lists
// ---------------------------------------------------------------------------

/// The index of the `::` separator of a term line.
pub open spec fn dterm_dd(s: Seq<char>) -> int {
    find_pair_from(s, 0, ':', ':')->Some_0
}

/// A term: the trimmed text before the `::`, read as inline content.
pub open spec fn term_matches(t: Located<Term>, s: Seq<char>, ln: int) -> bool {
    let pre = s.subrange(0, dterm_dd(s));
    let lo = indent_of(pre);
    let hi = trim_end_of(pre);
    &&& region_is(t.region, ln, lo + 1, hi)
    &&& container_matches(t.element.content.elements@, s.subrange(lo, hi), lo, ln)
}

pub open spec fn def_matches_range(d: Located<Definition>, s: Seq<char>, lo: int, hi: int, ln: int)
    -> bool {
    &&& region_is(d.region, ln, lo + 1, hi)
    &&& container_matches(d.element.content.elements@, s.subrange(lo, hi), lo, ln)
}

/// The definitions under a term at `li`: the inline definition on the
/// term line, if it has one, then one per definition-only line up to
/// `dend`.
pub open spec fn defs_match(defs: Seq<Located<Definition>>, ls: Seq<Seq<char>>, li: int, dend: int)
    -> bool {
    let s = ls[li];
    let dd = dterm_dd(s);
    let te = trim_end_of(s);
    let k0: int = if te > dd + 3 {
        1
    } else {
        0
    };
    &&& defs.len() == k0 + (dend - (li + 1))
    &&& (k0 == 1 ==> def_matches_range(defs[0], s, dd + 3, te, li + 1))
    &&& forall|j: int| 0 <= j < dend - (li + 1) ==> def_matches_range(
        #[trigger] defs[k0 + j],
        ls[li + 1 + j],
        indent_of(ls[li + 1 + j]) + 3,
        trim_end_of(ls[li + 1 + j]),
        li + 1 + j + 1,
    )
}

/// The first line at or after `li` that is not a definition-only line.
pub open spec fn def_run_end(ls: Seq<Seq<char>>, li: int) -> int
    decreases ls.len() - li,
{
    if li < 0 || li >= ls.len() || !def_line_at(ls[li]) {
        li
    } else {
        def_run_end(ls, li + 1)
    }
}

pub proof fn lemma_def_run_end(ls: Seq<Seq<char>>, li: int)
    requires
        0 <= li <= ls.len(),
    ensures
        li <= def_run_end(ls, li) <= ls.len(),
        forall|j: int| li <= j < def_run_end(ls, li) ==> def_line_at(#[trigger] ls[j]),
        def_run_end(ls, li) < ls.len() ==> !def_line_at(ls[def_run_end(ls, li)]),
    decreases ls.len() - li,
{
    if li < ls.len() && def_line_at(ls[li]) {
        lemma_def_run_end(ls, li + 1);
    }
}

/// The entries of a definition list over `[li, end)`: each term line
/// opens an entry that collects the definition lines after it.
pub open spec fn dl_matches(
    entries: Seq<TermAndDefinitions>,
    ls: Seq<Seq<char>>,
    li: int,
    end: int,
) -> bool
    decreases end - li,
        via dl_matches_decreases
{
    if li >= end {
        entries.len() == 0
    } else {
        let dend0 = def_run_end(ls, li + 1);
        let dend = if dend0 > end {
            end
        } else {
            dend0
        };
        &&& entries.len() >= 1
        &&& term_matches(entries[0].term, ls[li], li + 1)
        &&& defs_match(entries[0].definitions@, ls, li, dend)
        &&& dl_matches(entries.drop_first(), ls, dend, end)
    }
}

#[via_fn]
proof fn dl_matches_decreases(entries: Seq<TermAndDefinitions>, ls: Seq<Seq<char>>, li: int, end: int) {
    if li < end {
        if 0 <= li + 1 <= ls.len() {
            lemma_def_run_end(ls, li + 1);
        }
    }
}

// ---------------------------------------------------------------------------
// Lists
// ---------------------------------------------------------------------------

/// The first line in `[j, end)` that does not continue an item of
/// indentation `d`: its sublist lines are the marker lines indented
/// deeper than `d`.
pub open spec fn deeper_end(ls: Seq<Seq<char>>, j: int, end: int, d: int) -> int
    decreases end - j,
{
    if j < 0 || j >= end || j >= ls.len() || marker_of(ls[j]) is None || indent_of(ls[j]) <= d {
        j
    } else {
        deeper_end(ls, j + 1, end, d)
    }
}

pub proof fn lemma_deeper_end(ls: Seq<Seq<char>>, j: int, end: int, d: int)
    requires
        0 <= j,
    ensures
        j <= deeper_end(ls, j, end, d),
        deeper_end(ls, j, end, d) <= end || deeper_end(ls, j, end, d) == j,
    decreases end - j,
{
    if !(j >= end || j >= ls.len() || marker_of(ls[j]) is None || indent_of(ls[j]) <= d) {
        lemma_deeper_end(ls, j + 1, end, d);
    }
}

/// One list item: its marker line at `li` and its sublist lines up to
/// `ie`. Its contents hold the marker line's inline content and, when
/// deeper lines follow, the nested list built from them.
pub open spec fn item_matches(it: Located<EnhancedListItem>, ls: Seq<Seq<char>>, li: int, ie: int)
    -> bool
    decreases ie - li, 0int,
{
    let s = ls[li];
    let m = marker_of(s)->Some_0;
    let p = m.2;
    let todo = todo_of(s, p);
    let cstart = if todo is Some {
        p + 4
    } else {
        p
    };
    let te = trim_end_of(s);
    let chi = if te > cstart {
        te
    } else {
        cstart
    };
    let cts = it.element.item.contents.contents@;
    &&& it.region.start.line == li + 1
    &&& it.region.start.column == 1
    &&& it.region.end.line == ie
    &&& it.region.end.column == line_end_col(ls[ie - 1])
    &&& it.element.attributes.todo_status == todo
    &&& it.element.item.item_type == m.0
    &&& it.element.item.suffix == m.1
    &&& it.element.item.depth == indent_of(s)
    &&& cts.len() == if ie > li + 1 {
        2int
    } else {
        1int
    }
    &&& cts[0].element matches ListItemContent::InlineContent(cc) && container_matches(
        cc.elements@,
        s.subrange(cstart, chi),
        cstart,
        li + 1,
    )
    &&& region_is(cts[0].region, li + 1, cstart + 1, chi)
    &&& (ie > li + 1 ==> (cts[1].element matches ListItemContent::List(sub) && items_match(
        sub.items@,
        ls,
        li + 1,
        ie,
        indent_of(s) + 1,
    ) && cts[1].region.start.line == li + 2 && cts[1].region.start.column == 1
        && cts[1].region.end.line == ie && cts[1].region.end.column == line_end_col(
        ls[ie - 1],
    )))
}

/// The items of a list over `[li, end)` whose indentation is at least
/// `floor`: each marker line opens an item that owns the deeper lines
/// after it.
pub open spec fn items_match(
    items: Seq<Located<EnhancedListItem>>,
    ls: Seq<Seq<char>>,
    li: int,
    end: int,
    floor: int,
) -> bool
    decreases end - li, 1int,
        via items_match_decreases
{
    if li >= end || li < 0 || li >= ls.len() || marker_of(ls[li]) is None || indent_of(ls[li])
        < floor {
        items.len() == 0
    } else {
        let ie0 = deeper_end(ls, li + 1, end, indent_of(ls[li]));
        &&& items.len() >= 1
        &&& item_matches(items[0], ls, li, ie0)
        &&& items_match(items.drop_first(), ls, ie0, end, floor)
    }
}

#[via_fn]
proof fn items_match_decreases(
    items: Seq<Located<EnhancedListItem>>,
    ls: Seq<Seq<char>>,
    li: int,
    end: int,
    floor: int,
) {
    if !(li >= end || li < 0 || li >= ls.len() || marker_of(ls[li]) is None || indent_of(
        ls[li],
    ) < floor) {
        lemma_deeper_end(ls, li + 1, end, indent_of(ls[li]));
    }
}

pub open spec fn list_matches(l: List, ls: Seq<Seq<char>>, li: int, cnt: int) -> bool {
    items_match(l.items@, ls, li, li + cnt, 0)
}

// ---------------------------------------------------------------------------
// Comments
// ---------------------------------------------------------------------------

/// The lines of a multi-line comment: between `%%+` and `+%%`, whole
/// lines in the middle; an unclosed comment runs to the end of the
/// document.
pub open spec fn multi_lines_match(m: MultiLineComment, ls: Seq<Seq<char>>, li: int, cnt: int)
    -> bool {
    let s = ls[li];
    if cnt == 1 {
        match plus_close_of(s, 3) {
            Some(q) => m.lines@.len() == 1 && m.lines@[0]@ == s.subrange(3, q),
            None => m.lines@.len() == 1 && m.lines@[0]@ == s.skip(3),
        }
    } else {
        &&& m.lines@.len() == cnt
        &&& m.lines@[0]@ == s.skip(3)
        &&& forall|j: int| 1 <= j < cnt - 1 ==> (#[trigger] m.lines@[j])@ == ls[li + j]
        &&& match plus_close_of(ls[li + cnt - 1], 0) {
            Some(q) => m.lines@[cnt - 1]@ == ls[li + cnt - 1].subrange(0, q),
            None => m.lines@[cnt - 1]@ == ls[li + cnt - 1],
        }
    }
}

/// A comment step: a line comment holds the text after `%%`; a
/// multi-line comment holds its line contents.
pub open spec fn comment_matches(c: Located<Comment>, ls: Seq<Seq<char>>, li: int) -> bool {
    let (kind, cnt) = block_take(ls, li);
    &&& block_region_is(c.region, ls, li, cnt)
    &&& if kind == BlockKind::CommentMulti {
        c.element matches Comment::MultiLine(m) && multi_lines_match(m, ls, li, cnt)
    } else {
        c.element matches Comment::Line(lc) && lc.text@ == ls[li].skip(2)
    }
}

// ---------------------------------------------------------------------------
// Blocks
// ---------------------------------------------------------------------------

/// The block element at `li` is exactly what the rule that fires there
/// produces.
pub open spec fn block_matches(b: Located<BlockElement>, ls: Seq<Seq<char>>, li: int) -> bool {
    let (kind, cnt) = block_take(ls, li);
    &&& block_region_is(b.region, ls, li, cnt)
    &&& match kind {
        BlockKind::Empty => b.element is EmptyLine,
        BlockKind::Header => b.element matches BlockElement::Header(h) && header_matches(
            h,
            ls[li],
            li + 1,
        ),
        BlockKind::Paragraph => b.element matches BlockElement::Paragraph(p) && para_matches(
            p.content.elements@,
            ls,
            li,
            li + cnt,
        ),
        BlockKind::List => b.element matches BlockElement::List(l) && list_matches(
            l,
            ls,
            li,
            cnt,
        ),
        BlockKind::Table => b.element matches BlockElement::Table(t) && table_matches(
            t,
            ls,
            li,
            cnt,
        ),
        BlockKind::Pre => b.element matches BlockElement::Preformatted(p) && pre_matches(
            p,
            ls,
            li,
            cnt,
        ),
        BlockKind::Math => b.element matches BlockElement::Math(m) && math_matches(
            m,
            ls,
            li,
            cnt,
        ),
        BlockKind::Quote => b.element matches BlockElement::Blockquote(q) && quote_matches(
            q,
            ls,
            li,
            cnt,
        ),
        BlockKind::Divider => b.element matches BlockElement::Divider(_d),
        BlockKind::TagsLine => b.element matches BlockElement::Tags(t) && crate::inline::tags_match(
            t,
            trimmed(ls[li]),
            0,
        ),
        BlockKind::Placeholder => b.element matches BlockElement::Placeholder(p)
            && placeholder_matches(p, ls[li]),
        BlockKind::Definition => b.element matches BlockElement::DefinitionList(d) && dl_matches(
            d.entries@,
            ls,
            li,
            li + cnt,
        ),
        BlockKind::Unrecognized => b.element matches BlockElement::UnrecognizedLine(t) && t@
            == ls[li],
        _ => false,
    }
}

/// The blocks and comments read from line `li` on: at each step the
/// firing rule contributes one block or one comment and consumes its
/// lines; nothing is left over.
pub open spec fn page_matches_from(
    bs: Seq<Located<BlockElement>>,
    cs: Seq<Located<Comment>>,
    ls: Seq<Seq<char>>,
    li: int,
) -> bool
    decreases ls.len() - li,
        via page_matches_from_decreases
{
    if li < 0 || li >= ls.len() {
        bs.len() == 0 && cs.len() == 0
    } else {
        let (kind, cnt) = block_take(ls, li);
        if kind == BlockKind::CommentLine || kind == BlockKind::CommentMulti {
            &&& cs.len() >= 1
            &&& comment_matches(cs[0], ls, li)
            &&& page_matches_from(bs, cs.drop_first(), ls, li + cnt)
        } else {
            &&& bs.len() >= 1
            &&& block_matches(bs[0], ls, li)
            &&& page_matches_from(bs.drop_first(), cs, ls, li + cnt)
        }
    }
}

#[via_fn]
proof fn page_matches_from_decreases(
    bs: Seq<Located<BlockElement>>,
    cs: Seq<Located<Comment>>,
    ls: Seq<Seq<char>>,
    li: int,
) {
    if 0 <= li < ls.len() {
        lemma_block_take(ls, li);
    }
}

/// The whole page: every line reduced, from the first.
pub open spec fn page_matches(p: Page, ls: Seq<Seq<char>>) -> bool {
    page_matches_from(p.elements@, p.comments@, ls, 0)
}

// ---------------------------------------------------------------------------
// Run scanners
// ---------------------------------------------------------------------------

use crate::lexer::views;

pub proof fn lemma_plain_run_lines(ls: Seq<Seq<char>>, li: int)
    requires
        0 <= li <= ls.len(),
    ensures
        forall|j: int| li <= j < li + plain_run(ls, li) ==> plain_line(#[trigger] ls[j]),
    decreases ls.len() - li,
{
    if li < ls.len() && plain_line(ls[li]) {
        lemma_plain_run_lines(ls, li + 1);
    }
}

pub proof fn lemma_quote_run_lines(ls: Seq<Seq<char>>, li: int)
    requires
        0 <= li <= ls.len(),
    ensures
        forall|j: int| li <= j < li + quote_run(ls, li) ==> quote_line_at(#[trigger] ls[j]),
    decreases ls.len() - li,
{
    if li < ls.len() && quote_line_at(ls[li]) {
        lemma_quote_run_lines(ls, li + 1);
    }
}

pub proof fn lemma_table_run_lines(ls: Seq<Seq<char>>, li: int)
    requires
        0 <= li <= ls.len(),
    ensures
        forall|j: int| li <= j < li + table_run(ls, li) ==> table_line_at(#[trigger] ls[j]),
    decreases ls.len() - li,
{
    if li < ls.len() && table_line_at(ls[li]) {
        lemma_table_run_lines(ls, li + 1);
    }
}

pub proof fn lemma_dl_run_lines(ls: Seq<Seq<char>>, li: int)
    requires
        0 <= li <= ls.len(),
    ensures
        forall|j: int| li <= j < li + dl_run(ls, li) ==> term_line_at(#[trigger] ls[j])
            || def_line_at(ls[j]),
        li + dl_run(ls, li) < ls.len() ==> !(term_line_at(ls[li + dl_run(ls, li)]) || def_line_at(
            ls[li + dl_run(ls, li)],
        )),
    decreases ls.len() - li,
{
    if li < ls.len() && (term_line_at(ls[li]) || def_line_at(ls[li])) {
        lemma_dl_run_lines(ls, li + 1);
    }
}

fn scan_plain_run(lines: &Vec<Vec<char>>, li: usize) -> (r: usize)
    requires
        li <= lines@.len(),
    ensures
        r == plain_run(views(lines@), li as int) + li,
        li <= r <= lines@.len(),
{
    proof {
        lemma_run_bounds(views(lines@), li as int);
    }
    let n = lines.len();
    let mut k: usize = li;
    while k < n && check_plain(&lines[k])
        invariant
            li <= k <= n == lines@.len(),
            plain_run(views(lines@), li as int) + li == plain_run(views(lines@), k as int) + k,
        decreases n - k,
    {
        k += 1;
    }
    k
}

fn scan_quote_run(lines: &Vec<Vec<char>>, li: usize) -> (r: usize)
    requires
        li <= lines@.len(),
    ensures
        r == quote_run(views(lines@), li as int) + li,
        li <= r <= lines@.len(),
{
    proof {
        lemma_run_bounds(views(lines@), li as int);
    }
    let n = lines.len();
    let mut k: usize = li;
    while k < n && check_quote_line(&lines[k])
        invariant
            li <= k <= n == lines@.len(),
            quote_run(views(lines@), li as int) + li == quote_run(views(lines@), k as int) + k,
        decreases n - k,
    {
        k += 1;
    }
    k
}

fn scan_table_run(lines: &Vec<Vec<char>>, li: usize) -> (r: usize)
    requires
        li <= lines@.len(),
    ensures
        r == table_run(views(lines@), li as int) + li,
        li <= r <= lines@.len(),
{
    proof {
        lemma_run_bounds(views(lines@), li as int);
    }
    let n = lines.len();
    let mut k: usize = li;
    while k < n && check_table_line(&lines[k])
        invariant
            li <= k <= n == lines@.len(),
            table_run(views(lines@), li as int) + li == table_run(views(lines@), k as int) + k,
        decreases n - k,
    {
        k += 1;
    }
    k
}

fn scan_marker_run(lines: &Vec<Vec<char>>, li: usize) -> (r: usize)
    requires
        li <= lines@.len(),
    ensures
        r == marker_run(views(lines@), li as int) + li,
        li <= r <= lines@.len(),
{
    proof {
        lemma_run_bounds(views(lines@), li as int);
    }
    let n = lines.len();
    let mut k: usize = li;
    loop
        invariant
            li <= k <= n == lines@.len(),
            marker_run(views(lines@), li as int) + li == marker_run(views(lines@), k as int)
                + k,
        decreases n - k,
    {
        if k >= n {
            return k;
        }
        match scan_marker(&lines[k]) {
            Some(_) => {
                k += 1;
            },
            None => {
                return k;
            },
        }
    }
}

fn scan_dl_run(lines: &Vec<Vec<char>>, li: usize) -> (r: usize)
    requires
        li <= lines@.len(),
    ensures
        r == dl_run(views(lines@), li as int) + li,
        li <= r <= lines@.len(),
{
    proof {
        lemma_run_bounds(views(lines@), li as int);
    }
    let n = lines.len();
    let mut k: usize = li;
    loop
        invariant
            li <= k <= n == lines@.len(),
            dl_run(views(lines@), li as int) + li == dl_run(views(lines@), k as int) + k,
        decreases n - k,
    {
        if k >= n {
            return k;
        }
        let is_dl = check_term_line(&lines[k]) || check_def_line(&lines[k]);
        if is_dl {
            k += 1;
        } else {
            return k;
        }
    }
}

fn scan_pre_close(lines: &Vec<Vec<char>>, li: usize) -> (r: Option<usize>)
    requires
        li <= lines@.len(),
    ensures
        match r {
            Some(j) => pre_close_idx(views(lines@), li as int) == Some(j as int) && li <= j
                < lines@.len(),
            None => pre_close_idx(views(lines@), li as int) is None,
        },
{
    let n = lines.len();
    let mut k: usize = li;
    while k < n
        invariant
            li <= k <= n == lines@.len(),
            pre_close_idx(views(lines@), li as int) == pre_close_idx(views(lines@), k as int),
        decreases n - k,
    {
        if check_pre_close(&lines[k]) {
            return Some(k);
        }
        k += 1;
    }
    None
}

fn scan_math_close(lines: &Vec<Vec<char>>, li: usize) -> (r: Option<usize>)
    requires
        li <= lines@.len(),
    ensures
        match r {
            Some(j) => math_close_idx(views(lines@), li as int) == Some(j as int) && li <= j
                < lines@.len(),
            None => math_close_idx(views(lines@), li as int) is None,
        },
{
    let n = lines.len();
    let mut k: usize = li;
    while k < n
        invariant
            li <= k <= n == lines@.len(),
            math_close_idx(views(lines@), li as int) == math_close_idx(
                views(lines@),
                k as int,
            ),
        decreases n - k,
    {
        if check_math_close(&lines[k]) {
            return Some(k);
        }
        k += 1;
    }
    None
}

// ---------------------------------------------------------------------------
// Exec parsers for the simple blocks
// ---------------------------------------------------------------------------

/// The region of a block covering lines `li+1 ..= li+cnt`.
fn block_region(lines: &Vec<Vec<char>>, li: usize, cnt: usize) -> (r: Region)
    requires
        1 <= cnt,
        li + cnt <= lines@.len(),
    ensures
        block_region_is(r, views(lines@), li as int, cnt as int),
{
    let n = lines.len();
    let last = &lines[li + cnt - 1];
    let ec = if last.len() == 0 {
        1
    } else {
        last.len()
    };
    Region::from_parts(li + 1, 1, li + cnt, ec)
}

/// Reads a header from its line.
fn parse_header(v: &Vec<char>, ln: usize) -> (h: Header)
    requires
        !all_blank(v@),
        header_at(trimmed(v@)),
    ensures
        header_matches(h, v@, ln as int),
{
    let ghost t = trimmed(v@);
    let (ind, te) = scan_trim(v);
    proof {
        lemma_trim_bounds(v@);
        crate::linescan::lemma_eq_run_subrange(v@, ind as int, te as int, 0);
    }
    let ke = crate::linescan::scan_eq_run(v, ind);
    let k = if ke > te {
        te - ind
    } else {
        ke - ind
    };
    assert(k == eq_run(t, 0));
    let nn = v.len();
    let mlo = ind + k;
    let mhi = te - k;
    let mv = slice_vec(v, mlo, mhi);
    assert(mv@ =~= header_mid(t));
    let (lo, hi) = if check_blank(&mv) {
        (mlo, mlo)
    } else {
        proof {
            lemma_trim_bounds(mv@);
        }
        let (mi, mte) = scan_trim(&mv);
        (mlo + mi, mlo + mte)
    };
    assert(lo == header_text_lo(v@));
    assert(hi == header_text_hi(v@));
    let seg = slice_vec(v, lo, hi);
    let c = crate::inline::inline_component_container(&seg, lo, ln);
    Header::new(k, c, ind > 0)
}

/// Reads a blockquote from its run of lines.
fn parse_quote(lines: &Vec<Vec<char>>, li: usize, cnt: usize) -> (q: Blockquote)
    requires
        li + cnt <= lines@.len(),
        forall|j: int| li <= j < li + cnt ==> quote_line_at(#[trigger] views(lines@)[j]),
    ensures
        quote_matches(q, views(lines@), li as int, cnt as int),
{
    let nl = lines.len();
    let mut out: Vec<String> = Vec::new();
    let mut j: usize = 0;
    while j < cnt
        invariant
            0 <= j <= cnt,
            li + cnt <= nl == lines@.len(),
            forall|m: int| li <= m < li + cnt ==> quote_line_at(#[trigger] views(lines@)[m]),
            out@.len() == j,
            forall|m: int| 0 <= m < j ==> (#[trigger] out@[m])@ == quote_strip(
                views(lines@)[li + m],
            ),
        decreases cnt - j,
    {
        let v = &lines[li + j];
        let n = v.len();
        assert(views(lines@)[li + j] == v@);
        assert(quote_line_at(v@));
        let stripped: String = if n > 0 && v[0] == '>' {
            if n >= 2 && v[1] == ' ' {
                slice_to_string(v, 2, n)
            } else {
                slice_to_string(v, 1, n)
            }
        } else {
            proof {
                lemma_indent_of_bounds(v@);
            }
            slice_to_string(v, 4, n)
        };
        assert(stripped@ =~= quote_strip(views(lines@)[li + j]));
        out.push(stripped);
        j += 1;
    }
    Blockquote::new(out)
}

/// The language or metadata written after a fence opener, and the raw
/// lines up to its closing fence.
fn parse_fence_attr(v: &Vec<char>) -> (r: Vec<char>)
    requires
        !all_blank(v@),
        trim_end_of(v@) - indent_of(v@) >= 3,
    ensures
        r@ == fence_attr(v@),
{
    let (i0, e0) = scan_trim(v);
    let av = slice_vec(v, i0 + 3, e0);
    proof {
        assert(trimmed(v@).skip(3) =~= av@);
    }
    proof {
        lemma_trim_end_of_bounds(v@);
        if av@.len() > 0 {
            assert(av@[av@.len() - 1] == v@[e0 - 1]);
            assert(!all_blank(av@));
            lemma_trim_bounds(av@);
        }
    }
    let (ai, ae) = scan_trim(&av);
    let r = slice_vec(&av, ai, ae);
    assert(r@ =~= fence_attr(v@));
    r
}

/// Reads the raw lines between two fences.
fn parse_fence_lines(lines: &Vec<Vec<char>>, li: usize, cnt: usize) -> (r: Vec<String>)
    requires
        2 <= cnt,
        li + cnt <= lines@.len(),
    ensures
        r@.len() == cnt - 2,
        forall|j: int| 0 <= j < cnt - 2 ==> (#[trigger] r@[j])@ == views(lines@)[li + 1 + j],
{
    let nl = lines.len();
    let mut out: Vec<String> = Vec::new();
    let mut j: usize = 0;
    while j < cnt - 2
        invariant
            0 <= j <= cnt - 2,
            li + cnt <= nl == lines@.len(),
            out@.len() == j,
            forall|m: int| 0 <= m < j ==> (#[trigger] out@[m])@ == views(lines@)[li + 1 + m],
        decreases cnt - 2 - j,
    {
        let v = &lines[li + 1 + j];
        let s = slice_to_string(v, 0, v.len());
        assert(s@ =~= views(lines@)[li + 1 + j]);
        out.push(s);
        j += 1;
    }
    out
}

/// Reads a preformatted block: fences, language or metadata, raw lines.
fn parse_pre(lines: &Vec<Vec<char>>, li: usize, cnt: usize) -> (p: PreformattedText)
    requires
        2 <= cnt,
        li + cnt <= lines@.len(),
        !all_blank(views(lines@)[li as int]),
        trim_end_of(views(lines@)[li as int]) - indent_of(views(lines@)[li as int]) >= 3,
    ensures
        pre_matches(p, views(lines@), li as int, cnt as int),
{
    let attr = parse_fence_attr(&lines[li]);
    let am = attr.len();
    let (lang, meta) = match find_char(&attr, 0, '=') {
        Some(e) => {
            let key = slice_to_string(&attr, 0, e);
            let valv = slice_vec(&attr, e + 1, am);
            assert(valv@ =~= fence_attr(views(lines@)[li as int]).skip(e + 1));
            let vm = valv.len();
            let val = if vm >= 2 && valv[0] == '"' && valv[vm - 1] == '"' {
                slice_to_string(&valv, 1, vm - 1)
            } else {
                slice_to_string(&valv, 0, vm)
            };
            assert(val@ == crate::inline::unquote(valv@));
            let mut meta: Vec<(String, String)> = Vec::new();
            meta.push((key, val));
            (None, meta)
        },
        None => {
            if am == 0 {
                (None, Vec::new())
            } else {
                let l = slice_to_string(&attr, 0, am);
                assert(l@ =~= fence_attr(views(lines@)[li as int]));
                (Some(l), Vec::new())
            }
        },
    };
    let body = parse_fence_lines(lines, li, cnt);
    PreformattedText::new(lang, meta, body)
}

/// Reads a math block: fences, optional environment, raw lines.
fn parse_math(lines: &Vec<Vec<char>>, li: usize, cnt: usize) -> (m: MathBlock)
    requires
        2 <= cnt,
        li + cnt <= lines@.len(),
        !all_blank(views(lines@)[li as int]),
        trim_end_of(views(lines@)[li as int]) - indent_of(views(lines@)[li as int]) >= 3,
    ensures
        math_matches(m, views(lines@), li as int, cnt as int),
{
    let attr = parse_fence_attr(&lines[li]);
    let am = attr.len();
    let env = if am >= 3 && attr[0] == '%' && attr[am - 1] == '%' {
        Some(slice_to_string(&attr, 1, am - 1))
    } else {
        None
    };
    let body = parse_fence_lines(lines, li, cnt);
    MathBlock::new(body, env)
}

/// Compares two character vectors.
fn eq_chars(a: &Vec<char>, b: &Vec<char>) -> (r: bool)
    ensures
        r == (a@ == b@),
{
    let n = a.len();
    if n != b.len() {
        assert(a@ != b@);
        return false;
    }
    let mut i: usize = 0;
    while i < n
        invariant
            0 <= i <= n == a@.len(),
            n == b@.len(),
            forall|k: int| 0 <= k < i ==> a@[k] == b@[k],
        decreases n - i,
    {
        if a[i] != b[i] {
            assert(a@ != b@);
            return false;
        }
        i += 1;
    }
    assert(a@ =~= b@);
    true
}

/// Reads a placeholder from its line.
fn parse_placeholder(v: &Vec<char>) -> (p: Placeholder)
    requires
        placeholder_valid(v@),
    ensures
        placeholder_matches(p, v@),
{
    let (ind, te) = scan_trim(v);
    let t = slice_vec(v, ind, te);
    assert(t@ =~= trimmed(v@));
    let ae = scan_alpha_end(&t, 1);
    let namev = slice_vec(&t, 1, ae);
    let tm = t.len();
    let value = if ae < tm && t[ae] == ' ' {
        slice_vec(&t, ae + 1, tm)
    } else {
        Vec::new()
    };
    assert(value@ =~= placeholder_value(t@));
    let title_w = vec!['t', 'i', 't', 'l', 'e'];
    let date_w = vec!['d', 'a', 't', 'e'];
    let template_w = vec!['t', 'e', 'm', 'p', 'l', 'a', 't', 'e'];
    let nohtml_w = vec!['n', 'o', 'h', 't', 'm', 'l'];
    proof {
        assert(title_w@ =~= title_chars());
        assert(date_w@ =~= date_chars());
        assert(template_w@ =~= template_chars());
        assert(nohtml_w@ =~= nohtml_chars());
    }
    if eq_chars(&namev, &title_w) {
        Placeholder::Title(crate::chars::chars_to_string(&value))
    } else if eq_chars(&namev, &date_w) {
        match crate::inline::check_date(&value) {
            Some(d) => Placeholder::Date(d),
            None => {
                proof {
                    assert(false);
                }
                Placeholder::NoHtml
            },
        }
    } else if eq_chars(&namev, &template_w) {
        Placeholder::Template(crate::chars::chars_to_string(&value))
    } else if eq_chars(&namev, &nohtml_w) {
        Placeholder::NoHtml
    } else {
        Placeholder::Other {
            name: crate::chars::chars_to_string(&namev),
            value: crate::chars::chars_to_string(&value),
        }
    }
}

/// Reads a standalone tag sequence from its line.
fn parse_tags_line(v: &Vec<char>) -> (t: Tags)
    requires
        tags_line_at(v@),
    ensures
        crate::inline::tags_match(t, trimmed(v@), 0),
{
    let (ind, te) = scan_trim(v);
    let tv = slice_vec(v, ind, te);
    assert(tv@ =~= trimmed(v@));
    match crate::inline::scan_tags(&tv, 0) {
        Some((vs, _end)) => Tags::new(vs),
        None => {
            proof {
                assert(false);
            }
            Tags::new(Vec::new())
        },
    }
}

/// The line at or after `start` holding a `+%%` closer, if any.
fn scan_mc_rest(lines: &Vec<Vec<char>>, start: usize) -> (r: Option<usize>)
    requires
        start <= lines@.len(),
    ensures
        match r {
            Some(j) => mc_close_idx(views(lines@), start as int, false) == Some(j as int)
                && start <= j < lines@.len(),
            None => mc_close_idx(views(lines@), start as int, false) is None,
        },
{
    let n = lines.len();
    let mut k: usize = start;
    while k < n
        invariant
            start <= k <= n == lines@.len(),
            mc_close_idx(views(lines@), start as int, false) == mc_close_idx(
                views(lines@),
                k as int,
                false,
            ),
        decreases n - k,
    {
        proof {
            assert(views(lines@)[k as int] == lines@[k as int]@);
        }
        match scan_plus_close(&lines[k], 0) {
            Some(_q) => {
                return Some(k);
            },
            None => {
                k += 1;
            },
        }
    }
    None
}

/// Reads a comment: a line comment, or a multi-line comment up to its
/// `+%%` closer or the end of the document.
fn parse_comment(lines: &Vec<Vec<char>>, li: usize) -> (r: (Located<Comment>, usize))
    requires
        li < lines@.len(),
        comment_line_at(views(lines@)[li as int]),
        !blank_line(views(lines@)[li as int]),
    ensures
        comment_matches(r.0, views(lines@), li as int),
        r.1 == block_take(views(lines@), li as int).1,
        1 <= r.1,
        li + r.1 <= lines@.len(),
{
    let ghost ls = views(lines@);
    let n = lines.len();
    let v = &lines[li];
    proof {
        assert(ls[li as int] == lines@[li as int]@);
    }
    if !check_multi_comment(v) {
        let text = slice_to_string(v, 2, v.len());
        assert(text@ =~= ls[li as int].skip(2));
        let region = block_region(lines, li, 1);
        return (Located::new(Comment::Line(LineComment::new(text)), region), 1);
    }
    // find the closing line
    let close: Option<usize> = match scan_plus_close(v, 3) {
        Some(_q) => Some(li),
        None => scan_mc_rest(lines, li + 1),
    };
    let cnt = match close {
        Some(j) => j - li + 1,
        None => n - li,
    };
    assert(cnt == block_take(ls, li as int).1);
    let region = block_region(lines, li, cnt);
    // collect the comment's lines
    let mut out: Vec<String> = Vec::new();
    if cnt == 1 {
        match scan_plus_close(v, 3) {
            Some(q) => {
                out.push(slice_to_string(v, 3, q));
                assert(out@[0]@ =~= ls[li as int].subrange(3, q as int));
            },
            None => {
                out.push(slice_to_string(v, 3, v.len()));
                assert(out@[0]@ =~= ls[li as int].skip(3));
            },
        }
    } else {
        out.push(slice_to_string(v, 3, v.len()));
        assert(out@[0]@ =~= ls[li as int].skip(3));
        let mut j: usize = 1;
        while j < cnt - 1
            invariant
                ls == views(lines@),
                1 <= j <= cnt - 1,
                li + cnt <= n == lines@.len(),
                out@.len() == j,
                out@[0]@ == ls[li as int].skip(3),
                forall|m: int| 1 <= m < j ==> (#[trigger] out@[m])@ == ls[li + m],
            decreases cnt - 1 - j,
        {
            let w = &lines[li + j];
            let s = slice_to_string(w, 0, w.len());
            assert(s@ =~= ls[li + j]);
            out.push(s);
            j += 1;
        }
        let lastv = &lines[li + cnt - 1];
        match scan_plus_close(lastv, 0) {
            Some(q) => {
                out.push(slice_to_string(lastv, 0, q));
            },
            None => {
                out.push(slice_to_string(lastv, 0, lastv.len()));
                assert(out@[cnt - 1]@ =~= ls[li + cnt - 1]);
            },
        }
    }
    (
        Located::new(Comment::MultiLine(MultiLineComment::new(out)), region),
        cnt,
    )
}

/// Every line's length leaves room for 1-based column arithmetic: a
/// machine limit, established once from the input text's length.
pub open spec fn lines_fit(ls: Seq<Seq<char>>) -> bool {
    forall|j: int| 0 <= j < ls.len() ==> (#[trigger] ls[j]).len() + 4 < usize::MAX
}

// ---------------------------------------------------------------------------
// Paragraphs
// ---------------------------------------------------------------------------

/// Reads the inline elements of the paragraph covering `[li, end)`, one
/// line at a time.
fn parse_paragraph(lines: &Vec<Vec<char>>, li: usize, end: usize) -> (es: Vec<
    Located<InlineElement>,
>)
    requires
        li <= end <= lines@.len(),
    ensures
        para_matches(es@, views(lines@), li as int, end as int),
    decreases end - li,
{
    if li == end {
        return Vec::new();
    }
    let v = &lines[li];
    let vn = v.len();
    proof {
        assert(views(lines@)[li as int] == v@);
    }
    let c = crate::inline::inline_component_container(v, 0, li + 1);
    let mut es = c.elements;
    let ghost first = es@;
    let mut rest = parse_paragraph(lines, li + 1, end);
    let ghost restg = rest@;
    es.append(&mut rest);
    proof {
        let s = views(lines@)[li as int];
        let cf = count_from(s, 0, false) as int;
        assert(first.len() == cf);
        assert(es@.take(cf) =~= first);
        assert(es@.skip(cf) =~= restg);
    }
    es
}

// ---------------------------------------------------------------------------
// Tables
// ---------------------------------------------------------------------------

fn check_row_divider(v: &Vec<char>) -> (r: bool)
    requires
        !all_blank(v@),
    ensures
        r == row_divider_at(v@),
{
    proof {
        lemma_trim_bounds(v@);
    }
    let (i, e) = scan_trim(v);
    let mut j: usize = i;
    while j < e
        invariant
            i <= j <= e <= v@.len(),
            i == indent_of(v@),
            e == trim_end_of(v@),
            forall|k: int| i <= k < j ==> (#[trigger] v@[k] == '|' || v@[k] == '-' || v@[k]
                == '+' || v@[k] == ':'),
        decreases e - j,
    {
        let c = v[j];
        if !(c == '|' || c == '-' || c == '+' || c == ':') {
            assert(!row_divider_at(v@));
            return false;
        }
        j += 1;
    }
    true
}

/// Reads one cell covering `v[a..b)`.
fn parse_cell(v: &Vec<char>, a: usize, b: usize, ln: usize) -> (c: Located<Cell>)
    requires
        a <= b <= v@.len(),
        v@.len() + 4 < usize::MAX,
    ensures
        cell_matches(c, v@, a as int, b as int, ln as int),
{
    let vn = v.len();
    let sub = slice_vec(v, a, b);
    let (ci, ce) = scan_trim(&sub);
    let cs = a + ci;
    let chi = a + ce;
    let region = Region::from_parts(ln, a + 1, ln, b);
    if check_blank(&sub) {
        Located::new(Cell::Empty, region)
    } else {
        proof {
            lemma_trim_bounds(sub@);
            assert(sub@[ci as int] == v@[cs as int]);
            if ce - ci == 2 {
                assert(sub@[ci + 1] == v@[cs + 1]);
            }
        }
        if ce - ci == 1 && sub[ci] == '>' {
            Located::new(Cell::Span(CellSpan::FromLeft), region)
        } else if ce - ci == 2 && sub[ci] == '\\' && sub[ci + 1] == '/' {
            Located::new(Cell::Span(CellSpan::FromAbove), region)
        } else {
            let seg = slice_vec(v, cs, chi);
            let cc = crate::inline::inline_component_container(&seg, cs, ln);
            Located::new(Cell::Content(cc), region)
        }
    }
}

/// Reads the cells after the pipe at `p`.
fn parse_cells(v: &Vec<char>, p: usize, ln: usize) -> (cells: Vec<Located<Cell>>)
    requires
        p <= v@.len(),
        v@.len() + 4 < usize::MAX,
    ensures
        cells_match(cells@, v@, p as int, ln as int),
    decreases v@.len() - p,
{
    let vn = v.len();
    let (_i, te) = scan_trim(v);
    if p >= te || te - p < 2 {
        return Vec::new();
    }
    match find_char(v, p + 1, '|') {
        Some(q) => {
            proof {
                lemma_trim_end_of_bounds(v@);
                crate::chars::lemma_find_from(v@, p + 1, '|');
            }
            let c = parse_cell(v, p + 1, q, ln);
            let mut rest = parse_cells(v, q, ln);
            let ghost restg = rest@;
            rest.insert(0, c);
            proof {
                assert(rest@.drop_first() =~= restg);
            }
            rest
        },
        None => {
            let mut cells: Vec<Located<Cell>> = Vec::new();
            cells.push(Located::new(Cell::Empty, Region::from_parts(ln, p + 2, ln, te)));
            cells
        },
    }
}

/// Reads one table row.
fn parse_row(v: &Vec<char>, ln: usize) -> (r: Located<Row>)
    requires
        !all_blank(v@),
        v@.len() + 4 < usize::MAX,
    ensures
        row_matches(r, v@, ln as int),
{
    let n = v.len();
    let ec = if n == 0 {
        1
    } else {
        n
    };
    let region = Region::from_parts(ln, 1, ln, ec);
    if check_row_divider(v) {
        Located::new(Row::Divider, region)
    } else {
        let (ind, _te) = scan_trim(v);
        let cells = parse_cells(v, ind, ln);
        Located::new(Row::Content { cells }, region)
    }
}

/// Reads a table from its run of lines.
fn parse_table(lines: &Vec<Vec<char>>, li: usize, cnt: usize) -> (t: Table)
    requires
        1 <= cnt,
        li + cnt <= lines@.len(),
        forall|j: int| li <= j < li + cnt ==> table_line_at(#[trigger] views(lines@)[j]),
        lines_fit(views(lines@)),
    ensures
        table_matches(t, views(lines@), li as int, cnt as int),
{
    let nl = lines.len();
    let mut rows: Vec<Located<Row>> = Vec::new();
    let mut j: usize = 0;
    while j < cnt
        invariant
            0 <= j <= cnt,
            li + cnt <= nl == lines@.len(),
            forall|m: int| li <= m < li + cnt ==> table_line_at(#[trigger] views(lines@)[m]),
            lines_fit(views(lines@)),
            rows@.len() == j,
            forall|m: int| 0 <= m < j ==> row_matches(
                #[trigger] rows@[m],
                views(lines@)[li + m],
                li + m + 1,
            ),
        decreases cnt - j,
    {
        let v = &lines[li + j];
        proof {
            assert(views(lines@)[li + j] == v@);
        }
        let row = parse_row(v, li + j + 1);
        rows.push(row);
        j += 1;
    }
    let first = &lines[li];
    proof {
        assert(views(lines@)[li as int] == first@);
    }
    let (ind, _te) = scan_trim(first);
    Table::new(rows, ind > 0)
}

// ---------------------------------------------------------------------------
// Lists
// ---------------------------------------------------------------------------

/// The first line in `[j, end)` that does not belong to the item of
/// indentation `d`.
fn scan_deeper_end(lines: &Vec<Vec<char>>, j: usize, end: usize, d: usize) -> (r: usize)
    requires
        j <= end <= lines@.len(),
    ensures
        r == deeper_end(views(lines@), j as int, end as int, d as int),
        j <= r <= end,
{
    proof {
        lemma_deeper_end(views(lines@), j as int, end as int, d as int);
    }
    let mut k: usize = j;
    loop
        invariant
            j <= k <= end <= lines@.len(),
            deeper_end(views(lines@), j as int, end as int, d as int) == deeper_end(
                views(lines@),
                k as int,
                end as int,
                d as int,
            ),
        decreases end - k,
    {
        if k >= end {
            return k;
        }
        let v = &lines[k];
        proof {
            assert(views(lines@)[k as int] == v@);
        }
        match scan_marker(v) {
            Some(_) => {
                let (ind, _te) = scan_trim(v);
                if ind <= d {
                    return k;
                }
                k += 1;
            },
            None => {
                return k;
            },
        }
    }
}

/// Reads one list item: its marker line and the deeper lines after it.
fn parse_item(lines: &Vec<Vec<char>>, li: usize, ie: usize) -> (it: Located<EnhancedListItem>)
    requires
        li < ie <= lines@.len(),
        marker_of(views(lines@)[li as int]) is Some,
        lines_fit(views(lines@)),
    ensures
        item_matches(it, views(lines@), li as int, ie as int),
    decreases ie - li, 0int,
{
    let ghost ls = views(lines@);
    let v = &lines[li];
    proof {
        assert(ls[li as int] == v@);
    }
    let n = v.len();
    let (t, suf, p) = match scan_marker(v) {
        Some(m) => m,
        None => {
            proof {
                assert(false);
            }
            (
                crate::elements::ListItemType::Unordered(
                    crate::elements::UnorderedListItemType::Hyphen,
                ),
                crate::elements::ListItemSuffix::NoSuffix,
                0,
            )
        },
    };
    let (ind, te) = scan_trim(v);
    let todo = crate::linescan::scan_todo(v, p);
    let cstart = match todo {
        Some(_) => p + 4,
        None => p,
    };
    let chi = if te > cstart {
        te
    } else {
        cstart
    };
    let seg = slice_vec(v, cstart, chi);
    let cc = crate::inline::inline_component_container(&seg, cstart, li + 1);
    let mut cts: Vec<Located<ListItemContent>> = Vec::new();
    cts.push(
        Located::new(
            ListItemContent::InlineContent(cc),
            Region::from_parts(li + 1, cstart + 1, li + 1, chi),
        ),
    );
    if ie > li + 1 {
        let sub = parse_items(lines, li + 1, ie, ind + 1);
        let lastv = &lines[ie - 1];
        let lec = if lastv.len() == 0 {
            1
        } else {
            lastv.len()
        };
        cts.push(
            Located::new(
                ListItemContent::List(List::new(sub)),
                Region::from_parts(li + 2, 1, ie, lec),
            ),
        );
    }
    let lastv = &lines[ie - 1];
    let lec = if lastv.len() == 0 {
        1
    } else {
        lastv.len()
    };
    let region = Region::from_parts(li + 1, 1, ie, lec);
    Located::new(
        crate::elements::EnhancedListItem::new(
            crate::elements::ListItem::new(
                t,
                suf,
                ind,
                crate::elements::ListItemContents::new(cts),
            ),
            crate::elements::ListItemAttributes { todo_status: todo },
        ),
        region,
    )
}

/// Reads the items over `[li, end)` whose indentation is at least
/// `floor`.
fn parse_items(lines: &Vec<Vec<char>>, li: usize, end: usize, floor: usize) -> (items: Vec<
    Located<EnhancedListItem>,
>)
    requires
        li <= end <= lines@.len(),
        lines_fit(views(lines@)),
    ensures
        items_match(items@, views(lines@), li as int, end as int, floor as int),
    decreases end - li, 1int,
{
    let ghost ls = views(lines@);
    if li >= end {
        return Vec::new();
    }
    let v = &lines[li];
    proof {
        assert(ls[li as int] == v@);
    }
    match scan_marker(v) {
        None => Vec::new(),
        Some(_) => {
            let (ind, _te) = scan_trim(v);
            if ind < floor {
                return Vec::new();
            }
            let ie = scan_deeper_end(lines, li + 1, end, ind);
            let it = parse_item(lines, li, ie);
            let mut rest = parse_items(lines, ie, end, floor);
            let ghost restg = rest@;
            rest.insert(0, it);
            proof {
                assert(rest@.drop_first() =~= restg);
            }
            rest
        },
    }
}

// ---------------------------------------------------------------------------
// Definition lists
// ---------------------------------------------------------------------------

/// The first line at or after `li` that is not a definition-only line.
fn scan_def_run_end(lines: &Vec<Vec<char>>, li: usize) -> (r: usize)
    requires
        li <= lines@.len(),
    ensures
        r == def_run_end(views(lines@), li as int),
        li <= r <= lines@.len(),
{
    proof {
        lemma_def_run_end(views(lines@), li as int);
    }
    let n = lines.len();
    let mut k: usize = li;
    loop
        invariant
            li <= k <= n == lines@.len(),
            def_run_end(views(lines@), li as int) == def_run_end(views(lines@), k as int),
        decreases n - k,
    {
        if k >= n {
            return k;
        }
        proof {
            assert(views(lines@)[k as int] == lines@[k as int]@);
        }
        if check_def_line(&lines[k]) {
            k += 1;
        } else {
            return k;
        }
    }
}

/// Reads the definition over `v[lo..hi)`.
fn parse_def(v: &Vec<char>, lo: usize, hi: usize, ln: usize) -> (d: Located<Definition>)
    requires
        lo <= hi <= v@.len(),
        v@.len() + 4 < usize::MAX,
    ensures
        def_matches_range(d, v@, lo as int, hi as int, ln as int),
{
    let seg = slice_vec(v, lo, hi);
    let cc = crate::inline::inline_component_container(&seg, lo, ln);
    Located::new(
        Definition::new(cc),
        Region::from_parts(ln, lo + 1, ln, hi),
    )
}

/// Reads the entries of a definition list over `[li, end)`.
fn parse_dl(lines: &Vec<Vec<char>>, li: usize, end: usize) -> (entries: Vec<TermAndDefinitions>)
    requires
        li <= end <= lines@.len(),
        forall|j: int| li <= j < end ==> term_line_at(#[trigger] views(lines@)[j]) || def_line_at(
            views(lines@)[j],
        ),
        li < end ==> term_line_at(views(lines@)[li as int]),
        lines_fit(views(lines@)),
    ensures
        dl_matches(entries@, views(lines@), li as int, end as int),
    decreases end - li,
{
    let ghost ls = views(lines@);
    if li >= end {
        return Vec::new();
    }
    let v = &lines[li];
    proof {
        assert(ls[li as int] == v@);
    }
    let n = v.len();
    let dd = match find_pair(v, 0, ':', ':') {
        Some(dd) => dd,
        None => {
            proof {
                assert(false);
            }
            0
        },
    };
    // the term: trimmed text before the separator
    let pre = slice_vec(v, 0, dd);
    let (plo, phi) = scan_trim(&pre);
    let tseg = slice_vec(v, plo, phi);
    proof {
        assert(tseg@ =~= v@.subrange(plo as int, phi as int));
        assert(v@.subrange(plo as int, phi as int) =~= pre@.subrange(plo as int, phi as int));
    }
    let tcc = crate::inline::inline_component_container(&tseg, plo, li + 1);
    let term = Located::new(
        Term::new(tcc),
        Region::from_parts(li + 1, plo + 1, li + 1, phi),
    );
    // its definitions
    let (_vi, te) = scan_trim(v);
    let dend0 = scan_def_run_end(lines, li + 1);
    proof {
        lemma_def_run_end(ls, li + 1);
    }
    let dend = if dend0 > end {
        end
    } else {
        dend0
    };
    let mut defs: Vec<Located<Definition>> = Vec::new();
    if te > dd && te - dd > 3 {
        defs.push(parse_def(v, dd + 3, te, li + 1));
    }
    let ghost k0 = defs@.len() as int;
    let mut j: usize = li + 1;
    while j < dend
        invariant
            ls == views(lines@),
            li + 1 <= j <= dend || (li + 1 > dend && j == li + 1),
            dend <= end <= lines@.len(),
            forall|m: int| li <= m < end ==> term_line_at(#[trigger] ls[m]) || def_line_at(
                ls[m],
            ),
            forall|m: int| li + 1 <= m < dend ==> def_line_at(#[trigger] ls[m]),
            lines_fit(ls),
            defs@.len() == k0 + (j - (li + 1)),
            k0 == if trim_end_of(ls[li as int]) > dterm_dd(ls[li as int]) + 3 {
                1int
            } else {
                0int
            },
            k0 == 1 ==> def_matches_range(
                defs@[0],
                ls[li as int],
                dterm_dd(ls[li as int]) + 3,
                trim_end_of(ls[li as int]),
                li + 1,
            ),
            forall|m: int| 0 <= m < j - (li + 1) ==> def_matches_range(
                #[trigger] defs@[k0 + m],
                ls[li + 1 + m],
                indent_of(ls[li + 1 + m]) + 3,
                trim_end_of(ls[li + 1 + m]),
                li + 1 + m + 1,
            ),
        decreases dend - j,
    {
        let w = &lines[j];
        proof {
            assert(ls[j as int] == w@);
            assert(def_line_at(w@));
            lemma_trim_bounds(w@);
        }
        let (wi, wte) = scan_trim(w);
        defs.push(parse_def(w, wi + 3, wte, j + 1));
        j += 1;
    }
    let entry = TermAndDefinitions::new(term, defs);
    let mut rest = parse_dl(lines, dend, end);
    let ghost restg = rest@;
    rest.insert(0, entry);
    proof {
        assert(rest@.drop_first() =~= restg);
    }
    rest
}

// ---------------------------------------------------------------------------
// The top-level loop
// ---------------------------------------------------------------------------

fn check_header_line(v: &Vec<char>) -> (r: bool)
    requires
        !all_blank(v@),
    ensures
        r == header_at(trimmed(v@)),
{
    proof {
        lemma_trim_bounds(v@);
    }
    let (ind, te) = scan_trim(v);
    check_header(v, ind, te)
}

fn check_placeholder(v: &Vec<char>) -> (r: bool)
    ensures
        r == placeholder_valid(v@),
{
    if check_blank(v) {
        return false;
    }
    proof {
        lemma_trim_bounds(v@);
    }
    let (ind, te) = scan_trim(v);
    let t = slice_vec(v, ind, te);
    assert(t@ =~= trimmed(v@));
    let tm = t.len();
    if tm < 2 || t[0] != '%' || !alpha_char(t[1]) {
        return false;
    }
    let ae = scan_alpha_end(&t, 1);
    if !(ae == tm || t[ae] == ' ') {
        return false;
    }
    let namev = slice_vec(&t, 1, ae);
    let value = if ae < tm && t[ae] == ' ' {
        slice_vec(&t, ae + 1, tm)
    } else {
        Vec::new()
    };
    assert(value@ =~= placeholder_value(t@));
    let title_w = vec!['t', 'i', 't', 'l', 'e'];
    let date_w = vec!['d', 'a', 't', 'e'];
    let template_w = vec!['t', 'e', 'm', 'p', 'l', 'a', 't', 'e'];
    let nohtml_w = vec!['n', 'o', 'h', 't', 'm', 'l'];
    proof {
        assert(title_w@ =~= title_chars());
        assert(date_w@ =~= date_chars());
        assert(template_w@ =~= template_chars());
        assert(nohtml_w@ =~= nohtml_chars());
    }
    if eq_chars(&namev, &title_w) {
        value.len() > 0
    } else if eq_chars(&namev, &date_w) {
        match crate::inline::check_date(&value) {
            Some(_) => true,
            None => false,
        }
    } else if eq_chars(&namev, &template_w) {
        value.len() > 0
    } else if eq_chars(&namev, &nohtml_w) {
        value.len() == 0
    } else {
        value.len() > 0
    }
}

/// One step of the top-level loop: a block element or a comment.
enum PageStep {
    Blk(Located<BlockElement>),
    Cmt(Located<Comment>),
}

/// Runs the rule that fires at line `li` and returns what it produced
/// and how many lines it consumed.
fn page_step(lines: &Vec<Vec<char>>, li: usize) -> (r: (PageStep, usize))
    requires
        li < lines@.len(),
        lines_fit(views(lines@)),
    ensures
        r.1 == block_take(views(lines@), li as int).1,
        1 <= r.1,
        li + r.1 <= lines@.len(),
        match r.0 {
            PageStep::Blk(b) => block_take(views(lines@), li as int).0 != BlockKind::CommentLine
                && block_take(views(lines@), li as int).0 != BlockKind::CommentMulti
                && block_matches(b, views(lines@), li as int),
            PageStep::Cmt(c) => (block_take(views(lines@), li as int).0
                == BlockKind::CommentLine || block_take(views(lines@), li as int).0
                == BlockKind::CommentMulti) && comment_matches(c, views(lines@), li as int),
        },
{
    let ghost ls = views(lines@);
    let nl = lines.len();
    let v = &lines[li];
    proof {
        assert(ls[li as int] == v@);
        lemma_block_take(ls, li as int);
    }
    if check_blank(v) {
        let region = block_region(lines, li, 1);
        return (PageStep::Blk(Located::new(BlockElement::EmptyLine, region)), 1);
    }
    if check_comment_line(v) {
        let (c, cnt) = parse_comment(lines, li);
        return (PageStep::Cmt(c), cnt);
    }
    if check_header_line(v) {
        let h = parse_header(v, li + 1);
        let region = block_region(lines, li, 1);
        return (PageStep::Blk(Located::new(BlockElement::Header(h), region)), 1);
    }
    if check_plain(v) {
        let e = scan_plain_run(lines, li);
        let cnt = e - li;
        let es = parse_paragraph(lines, li, e);
        let region = block_region(lines, li, cnt);
        let p = Paragraph::new(crate::elements::InlineElementContainer::new(es));
        return (PageStep::Blk(Located::new(BlockElement::Paragraph(p), region)), cnt);
    }
    let has_marker = match scan_marker(v) {
        Some(_) => true,
        None => false,
    };
    if has_marker {
        let e = scan_marker_run(lines, li);
        let cnt = e - li;
        let items = parse_items(lines, li, e, 0);
        let region = block_region(lines, li, cnt);
        let l = List::new(items);
        return (PageStep::Blk(Located::new(BlockElement::List(l), region)), cnt);
    }
    if check_table_line(v) {
        let e = scan_table_run(lines, li);
        let cnt = e - li;
        proof {
            lemma_table_run_lines(ls, li as int);
        }
        let t = parse_table(lines, li, cnt);
        let region = block_region(lines, li, cnt);
        return (PageStep::Blk(Located::new(BlockElement::Table(t), region)), cnt);
    }
    if check_pre_open(v) {
        match scan_pre_close(lines, li + 1) {
            Some(j) => {
                let cnt = j - li + 1;
                let p = parse_pre(lines, li, cnt);
                let region = block_region(lines, li, cnt);
                return (
                    PageStep::Blk(Located::new(BlockElement::Preformatted(p), region)),
                    cnt,
                );
            },
            None => {
                let t = slice_to_string(v, 0, v.len());
                assert(t@ =~= ls[li as int]);
                let region = block_region(lines, li, 1);
                return (
                    PageStep::Blk(Located::new(BlockElement::UnrecognizedLine(t), region)),
                    1,
                );
            },
        }
    }
    if check_math_open(v) {
        match scan_math_close(lines, li + 1) {
            Some(j) => {
                let cnt = j - li + 1;
                let m = parse_math(lines, li, cnt);
                let region = block_region(lines, li, cnt);
                return (PageStep::Blk(Located::new(BlockElement::Math(m), region)), cnt);
            },
            None => {
                let t = slice_to_string(v, 0, v.len());
                assert(t@ =~= ls[li as int]);
                let region = block_region(lines, li, 1);
                return (
                    PageStep::Blk(Located::new(BlockElement::UnrecognizedLine(t), region)),
                    1,
                );
            },
        }
    }
    if check_quote_line(v) {
        let e = scan_quote_run(lines, li);
        let cnt = e - li;
        proof {
            lemma_quote_run_lines(ls, li as int);
        }
        let q = parse_quote(lines, li, cnt);
        let region = block_region(lines, li, cnt);
        return (PageStep::Blk(Located::new(BlockElement::Blockquote(q), region)), cnt);
    }
    if check_divider_line(v) {
        let region = block_region(lines, li, 1);
        return (
            PageStep::Blk(Located::new(BlockElement::Divider(crate::elements::Divider), region)),
            1,
        );
    }
    if check_tags_line(v) {
        let t = parse_tags_line(v);
        let region = block_region(lines, li, 1);
        return (PageStep::Blk(Located::new(BlockElement::Tags(t), region)), 1);
    }
    if check_placeholder(v) {
        let p = parse_placeholder(v);
        let region = block_region(lines, li, 1);
        return (PageStep::Blk(Located::new(BlockElement::Placeholder(p), region)), 1);
    }
    if check_term_line(v) {
        let e = scan_dl_run(lines, li);
        let cnt = e - li;
        proof {
            lemma_dl_run_lines(ls, li as int);
        }
        let entries = parse_dl(lines, li, e);
        let region = block_region(lines, li, cnt);
        let d = DefinitionList::new(entries);
        return (PageStep::Blk(Located::new(BlockElement::DefinitionList(d), region)), cnt);
    }
    let t = slice_to_string(v, 0, v.len());
    assert(t@ =~= ls[li as int]);
    let region = block_region(lines, li, 1);
    (PageStep::Blk(Located::new(BlockElement::UnrecognizedLine(t), region)), 1)
}

/// Reduces every line from `li` on to blocks and comments.
fn parse_page_from(lines: &Vec<Vec<char>>, li: usize) -> (r: (
    Vec<Located<BlockElement>>,
    Vec<Located<Comment>>,
))
    requires
        li <= lines@.len(),
        lines_fit(views(lines@)),
    ensures
        page_matches_from(r.0@, r.1@, views(lines@), li as int),
    decreases lines@.len() - li,
{
    let nl = lines.len();
    if li >= nl {
        return (Vec::new(), Vec::new());
    }
    let (step, cnt) = page_step(lines, li);
    let (mut bs, mut cs) = parse_page_from(lines, li + cnt);
    let ghost bsg = bs@;
    let ghost csg = cs@;
    match step {
        PageStep::Blk(b) => {
            bs.insert(0, b);
            proof {
                assert(bs@.drop_first() =~= bsg);
            }
        },
        PageStep::Cmt(c) => {
            cs.insert(0, c);
            proof {
                assert(cs@.drop_first() =~= csg);
            }
        },
    }
    (bs, cs)
}

/// The failure report of a parse: the position of the first input that
/// could not be consumed, and the names of the rules active there.
#[derive(Clone, Debug, PartialEq, Eq)]
pub struct ParseError {
    pub position: Position,
    pub context: Vec<String>,
}

/// Parses a whole document.
///
/// Every line of the input is reduced to a block element or a comment,
/// in source order, by the fixed priority order of rules; the only
/// failure is a line that no rule can consume (one holding a carriage
/// return with no newline after it), reported at its exact position.
pub fn parse_str(text: &str) -> (r: Result<Located<Page>, ParseError>)
    requires
        text@.len() + 8 < usize::MAX,
    ensures
        match r {
            Ok(lp) => {
                &&& crate::lexer::spec_lex(text@) is Ok
                &&& page_matches(lp.element, crate::lexer::spec_lex(text@)->Ok_0)
                &&& lp.region.start.line == 1
                &&& lp.region.start.column == 1
                &&& {
                    let ls = crate::lexer::spec_lex(text@)->Ok_0;
                    if ls.len() == 0 {
                        lp.region.end.line == 1 && lp.region.end.column == 1
                    } else {
                        lp.region.end.line == ls.len() && lp.region.end.column == line_end_col(
                            ls[ls.len() - 1],
                        )
                    }
                }
            },
            Err(e) => {
                &&& crate::lexer::spec_lex(text@) is Err
                &&& e.position.line == crate::lexer::spec_lex(text@)->Err_0 + 1
                &&& e.position.column == 1
                &&& e.context@.len() == 1
                &&& e.context@[0]@ == "page"@
            },
        },
{
    let chars = crate::chars::str_to_chars(text);
    match crate::lexer::lex(&chars) {
        Ok(lines) => {
            proof {
                assert forall|j: int| 0 <= j < views(lines@).len() implies (#[trigger] views(
                    lines@,
                )[j]).len() + 4 < usize::MAX by {
                    crate::lexer::lemma_lex_line_lengths(text@, j);
                }
            }
            let (bs, cs) = parse_page_from(&lines, 0);
            let n = lines.len();
            let region = if n == 0 {
                Region::from_parts(1, 1, 1, 1)
            } else {
                let last = &lines[n - 1];
                let ec = if last.len() == 0 {
                    1
                } else {
                    last.len()
                };
                Region::from_parts(1, 1, n, ec)
            };
            Ok(Located::new(Page::new(bs, cs), region))
        },
        Err(i) => {
            let mut context: Vec<String> = Vec::new();
            context.push(String::from_str("page"));
            Err(
                ParseError {
                    position: Position::new(i + 1, 1),
                    context,
                },
            )
        },
    }
}

/// Law: the blocks and comments of a parse partition the input's lines.
/// Every line from `li+1` on lies in exactly one span: spans sit within
/// the document, blocks and comments are each ordered with disjoint
/// spans, no block span meets a comment span, and every line is covered.
/// Some block or comment span contains line `j`.
pub open spec fn line_covered(
    bs: Seq<Located<BlockElement>>,
    cs: Seq<Located<Comment>>,
    j: int,
) -> bool {
    (exists|k: int|
        0 <= k < bs.len() && (#[trigger] bs[k]).region.start.line <= j
            <= bs[k].region.end.line) || (exists|k: int|
        0 <= k < cs.len() && (#[trigger] cs[k]).region.start.line <= j
            <= cs[k].region.end.line)
}

#[verifier::rlimit(100)]
pub proof fn lemma_page_partition(
    bs: Seq<Located<BlockElement>>,
    cs: Seq<Located<Comment>>,
    ls: Seq<Seq<char>>,
    li: int,
)
    requires
        0 <= li,
        page_matches_from(bs, cs, ls, li),
    ensures
        forall|k: int|
            0 <= k < bs.len() ==> li + 1 <= (#[trigger] bs[k]).region.start.line
                <= bs[k].region.end.line <= ls.len(),
        forall|k: int|
            0 <= k < cs.len() ==> li + 1 <= (#[trigger] cs[k]).region.start.line
                <= cs[k].region.end.line <= ls.len(),
        forall|k1: int, k2: int|
            0 <= k1 < k2 < bs.len() ==> (#[trigger] bs[k1]).region.end.line < (
            #[trigger] bs[k2]).region.start.line,
        forall|k1: int, k2: int|
            0 <= k1 < k2 < cs.len() ==> (#[trigger] cs[k1]).region.end.line < (
            #[trigger] cs[k2]).region.start.line,
        forall|k: int, m: int|
            0 <= k < bs.len() && 0 <= m < cs.len() ==> (#[trigger] bs[k]).region.end.line < (
            #[trigger] cs[m]).region.start.line || cs[m].region.end.line
                < bs[k].region.start.line,
        forall|j: int| li + 1 <= j <= ls.len() ==> #[trigger] line_covered(bs, cs, j),
    decreases ls.len() - li,
{
    if li >= ls.len() {
    } else {
        lemma_block_take(ls, li);
        let (kind, cnt) = block_take(ls, li);
        if kind == BlockKind::CommentLine || kind == BlockKind::CommentMulti {
            lemma_page_partition(bs, cs.drop_first(), ls, li + cnt);
            assert(cs[0].region.start.line == li + 1 && cs[0].region.end.line == li + cnt);
            assert forall|j: int|
                li + 1 <= j <= ls.len() implies #[trigger] line_covered(bs, cs, j) by {
                if j <= li + cnt {
                    assert(cs[0].region.start.line <= j <= cs[0].region.end.line);
                } else {
                    assert(line_covered(bs, cs.drop_first(), j));
                    let rest = cs.drop_first();
                    if exists|k: int|
                        0 <= k < rest.len() && (#[trigger] rest[k]).region.start.line <= j
                            <= rest[k].region.end.line {
                        let k = choose|k: int|
                            0 <= k < rest.len() && (#[trigger] rest[k]).region.start.line <= j
                                <= rest[k].region.end.line;
                        assert(cs[k + 1] == rest[k]);
                    }
                }
            }
            assert forall|k: int|
                0 <= k < cs.len() implies li + 1 <= (#[trigger] cs[k]).region.start.line
                    <= cs[k].region.end.line <= ls.len() by {
                if k > 0 {
                    assert(cs[k] == cs.drop_first()[k - 1]);
                }
            }
            assert forall|k1: int, k2: int|
                0 <= k1 < k2 < cs.len() implies (#[trigger] cs[k1]).region.end.line < (
            #[trigger] cs[k2]).region.start.line by {
                assert(cs[k2] == cs.drop_first()[k2 - 1]);
                if k1 > 0 {
                    assert(cs[k1] == cs.drop_first()[k1 - 1]);
                }
            }
            assert forall|k: int, m: int|
                0 <= k < bs.len() && 0 <= m < cs.len() implies (
            #[trigger] bs[k]).region.end.line < (#[trigger] cs[m]).region.start.line || cs[
                m
            ].region.end.line < bs[k].region.start.line by {
                if m > 0 {
                    assert(cs[m] == cs.drop_first()[m - 1]);
                }
            }
        } else {
            lemma_page_partition(bs.drop_first(), cs, ls, li + cnt);
            assert(bs[0].region.start.line == li + 1 && bs[0].region.end.line == li + cnt);
            assert forall|j: int|
                li + 1 <= j <= ls.len() implies #[trigger] line_covered(bs, cs, j) by {
                if j <= li + cnt {
                    assert(bs[0].region.start.line <= j <= bs[0].region.end.line);
                } else {
                    assert(line_covered(bs.drop_first(), cs, j));
                    let rest = bs.drop_first();
                    if exists|k: int|
                        0 <= k < rest.len() && (#[trigger] rest[k]).region.start.line <= j
                            <= rest[k].region.end.line {
                        let k = choose|k: int|
                            0 <= k < rest.len() && (#[trigger] rest[k]).region.start.line <= j
                                <= rest[k].region.end.line;
                        assert(bs[k + 1] == rest[k]);
                    }
                }
            }
            assert forall|k: int|
                0 <= k < bs.len() implies li + 1 <= (#[trigger] bs[k]).region.start.line
                    <= bs[k].region.end.line <= ls.len() by {
                if k > 0 {
                    assert(bs[k] == bs.drop_first()[k - 1]);
                }
            }
            assert forall|k1: int, k2: int|
                0 <= k1 < k2 < bs.len() implies (#[trigger] bs[k1]).region.end.line < (
            #[trigger] bs[k2]).region.start.line by {
                assert(bs[k2] == bs.drop_first()[k2 - 1]);
                if k1 > 0 {
                    assert(bs[k1] == bs.drop_first()[k1 - 1]);
                }
            }
            assert forall|k: int, m: int|
                0 <= k < bs.len() && 0 <= m < cs.len() implies (
            #[trigger] bs[k]).region.end.line < (#[trigger] cs[m]).region.start.line || cs[
                m
            ].region.end.line < bs[k].region.start.line by {
                if k > 0 {
                    assert(bs[k] == bs.drop_first()[k - 1]);
                }
            }
        }
    }
}

} // verus!
