//! The inline grammar: ordered-alternative recognizers for the constructs
//! that live inside a single line.
//!
//! Alternatives are tried in a fixed order at each position: inline math,
//! tag sequences, links (bracketed, raw, transclusion), decorated text,
//! keywords, and finally plain text, which absorbs everything up to the
//! next position where another rule could start. Every rule consumes at
//! least one character, so inline parsing is total over a line.
//!
//! Inside a decorated run only links, nested decorations, keywords and
//! text are recognized; the `rm` flag selects that restricted mode.

use vstd::prelude::*;
use crate::chars::{
    alnum_char, blank_char, digit_char, digits_at, digits_val, find_char, find_from, find_pair,
    find_pair_from, is_alnum_char, is_blank_char, is_digit_char, is_lower_char, lemma_find_from,
    lemma_find_pair_from, lower_char, parse_digits, slice_to_string, slice_vec,
};
use crate::elements::{
    DecoratedText, DecoratedTextContent, Decoration, Description, Date, DiaryLink,
    ExternalFileLink, ExternalFileLinkScheme, IndexedInterWikiLink, InlineElement,
    InlineElementContainer, InterWikiLink, Keyword, Link, MathInline, NamedInterWikiLink,
    RawLink, Tags, TransclusionLink, WikiLink,
};
use crate::chars::chars_to_string;
use crate::lexer::views;
use crate::location::{Located, Region};

verus! {

// ---------------------------------------------------------------------------
// Inline math
// ---------------------------------------------------------------------------

/// Inline math `$...$`: a dollar sign with a later closing dollar and a
/// non-empty formula between them.
pub open spec fn math_at(s: Seq<char>, i: int) -> bool {
    0 <= i < s.len() && s[i] == '$' && match find_from(s, i + 1, '$') {
        Some(j) => j > i + 1,
        None => false,
    }
}

/// The index one past the closing dollar.
pub open spec fn math_end(s: Seq<char>, i: int) -> int {
    find_from(s, i + 1, '$')->Some_0 + 1
}

// ---------------------------------------------------------------------------
// Tag sequences
// ---------------------------------------------------------------------------

pub open spec fn is_tag_char(c: char) -> bool {
    is_alnum_char(c) || c == '-' || c == '_'
}

/// The first index at or after `j` that does not hold a tag character.
pub open spec fn tag_word_end(s: Seq<char>, j: int) -> int
    decreases s.len() - j,
{
    if j < 0 || j >= s.len() {
        s.len() as int
    } else if is_tag_char(s[j]) {
        tag_word_end(s, j + 1)
    } else {
        j
    }
}

pub proof fn lemma_tag_word_end(s: Seq<char>, j: int)
    requires
        0 <= j <= s.len(),
    ensures
        j <= tag_word_end(s, j) <= s.len(),
        tag_word_end(s, j) < s.len() ==> !is_tag_char(s[tag_word_end(s, j)]),
        forall|k: int| j <= k < tag_word_end(s, j) ==> is_tag_char(#[trigger] s[k]),
    decreases s.len() - j,
{
    if j < s.len() && is_tag_char(s[j]) {
        lemma_tag_word_end(s, j + 1);
    }
}

/// Starting from a colon at `i`, the index one past the colon that closes
/// the last tag of the maximal run `:w1:w2:...:`, or `None` when no tag
/// follows the colon at `i`.
pub open spec fn tags_end(s: Seq<char>, i: int) -> Option<int>
    decreases s.len() - i,
        via tags_end_decreases
{
    if i < 0 || i >= s.len() || s[i] != ':' {
        None
    } else {
        let w = tag_word_end(s, i + 1);
        if w == i + 1 || w >= s.len() || s[w] != ':' {
            None
        } else {
            match tags_end(s, w) {
                Some(e) => Some(e),
                None => Some(w + 1),
            }
        }
    }
}

#[via_fn]
proof fn tags_end_decreases(s: Seq<char>, i: int) {
    if 0 <= i < s.len() && s[i] == ':' {
        lemma_tag_word_end(s, i + 1);
    }
}

/// The tag words of the maximal run starting at the colon at `i`.
pub open spec fn tags_values(s: Seq<char>, i: int) -> Seq<Seq<char>>
    decreases s.len() - i,
        via tags_values_decreases
{
    if i < 0 || i >= s.len() || s[i] != ':' {
        Seq::empty()
    } else {
        let w = tag_word_end(s, i + 1);
        if w == i + 1 || w >= s.len() || s[w] != ':' {
            Seq::empty()
        } else {
            seq![s.subrange(i + 1, w)] + tags_values(s, w)
        }
    }
}

#[via_fn]
proof fn tags_values_decreases(s: Seq<char>, i: int) {
    if 0 <= i < s.len() && s[i] == ':' {
        lemma_tag_word_end(s, i + 1);
    }
}

/// A tag sequence begins at `i`.
pub open spec fn tags_at(s: Seq<char>, i: int) -> bool {
    0 <= i < s.len() && s[i] == ':' && tags_end(s, i) is Some
}

pub proof fn lemma_tags_end(s: Seq<char>, i: int)
    requires
        0 <= i <= s.len(),
    ensures
        tags_end(s, i) is Some ==> i + 1 < tags_end(s, i)->Some_0 <= s.len(),
    decreases s.len() - i,
{
    if 0 <= i < s.len() && s[i] == ':' {
        let w = tag_word_end(s, i + 1);
        lemma_tag_word_end(s, i + 1);
        if !(w == i + 1 || w >= s.len() || s[w] != ':') {
            lemma_tags_end(s, w);
        }
    }
}

// ---------------------------------------------------------------------------
// Keywords
// ---------------------------------------------------------------------------

/// The characters of a keyword.
pub open spec fn keyword_chars(k: Keyword) -> Seq<char> {
    match k {
        Keyword::TODO => seq!['T', 'O', 'D', 'O'],
        Keyword::DONE => seq!['D', 'O', 'N', 'E'],
        Keyword::STARTED => seq!['S', 'T', 'A', 'R', 'T', 'E', 'D'],
        Keyword::FIXME => seq!['F', 'I', 'X', 'M', 'E'],
        Keyword::FIXED => seq!['F', 'I', 'X', 'E', 'D'],
        Keyword::XXX => seq!['X', 'X', 'X'],
    }
}

/// Whether the word `w` sits at `i` as a whole token: matched exactly and
/// not embedded in a longer alphanumeric run.
pub open spec fn word_at(s: Seq<char>, i: int, w: Seq<char>) -> bool {
    &&& 0 <= i
    &&& i + w.len() <= s.len()
    &&& s.subrange(i, i + w.len()) == w
    &&& (i == 0 || !is_alnum_char(s[i - 1]))
    &&& (i + w.len() == s.len() || !is_alnum_char(s[i + w.len()]))
}

/// The keyword whose word sits at `i`, if any.
pub open spec fn keyword_at(s: Seq<char>, i: int) -> Option<Keyword> {
    if word_at(s, i, keyword_chars(Keyword::TODO)) {
        Some(Keyword::TODO)
    } else if word_at(s, i, keyword_chars(Keyword::DONE)) {
        Some(Keyword::DONE)
    } else if word_at(s, i, keyword_chars(Keyword::STARTED)) {
        Some(Keyword::STARTED)
    } else if word_at(s, i, keyword_chars(Keyword::FIXME)) {
        Some(Keyword::FIXME)
    } else if word_at(s, i, keyword_chars(Keyword::FIXED)) {
        Some(Keyword::FIXED)
    } else if word_at(s, i, keyword_chars(Keyword::XXX)) {
        Some(Keyword::XXX)
    } else {
        None
    }
}

pub open spec fn keyword_end(s: Seq<char>, i: int) -> int {
    i + keyword_chars(keyword_at(s, i)->Some_0).len()
}

// ---------------------------------------------------------------------------
// Links
// ---------------------------------------------------------------------------

/// A bracketed link `[[...]]` begins at `i`: an opener, a closer somewhere
/// after it, and a non-empty body between them.
pub open spec fn bracket_at(s: Seq<char>, i: int) -> bool {
    &&& 0 <= i
    &&& i + 1 < s.len()
    &&& s[i] == '['
    &&& s[i + 1] == '['
    &&& match find_pair_from(s, i + 2, ']', ']') {
        Some(c) => c > i + 2,
        None => false,
    }
}

/// The index of the first `]]` closer.
pub open spec fn bracket_close(s: Seq<char>, i: int) -> int {
    find_pair_from(s, i + 2, ']', ']')->Some_0
}

/// A transclusion `{{...}}` begins at `i`.
pub open spec fn transclusion_at(s: Seq<char>, i: int) -> bool {
    &&& 0 <= i
    &&& i + 1 < s.len()
    &&& s[i] == '{'
    &&& s[i + 1] == '{'
    &&& match find_pair_from(s, i + 2, '}', '}') {
        Some(c) => c > i + 2,
        None => false,
    }
}

pub open spec fn transclusion_close(s: Seq<char>, i: int) -> int {
    find_pair_from(s, i + 2, '}', '}')->Some_0
}

/// The first blank character at or after `j`, or the end of the line: a
/// raw link runs to this index.
pub open spec fn blank_or_end(s: Seq<char>, j: int) -> int
    decreases s.len() - j,
{
    if j < 0 || j >= s.len() {
        s.len() as int
    } else if is_blank_char(s[j]) {
        j
    } else {
        blank_or_end(s, j + 1)
    }
}

pub proof fn lemma_blank_or_end(s: Seq<char>, j: int)
    requires
        0 <= j <= s.len(),
    ensures
        j <= blank_or_end(s, j) <= s.len(),
        blank_or_end(s, j) < s.len() ==> is_blank_char(s[blank_or_end(s, j)]),
        forall|k: int| j <= k < blank_or_end(s, j) ==> !is_blank_char(#[trigger] s[k]),
    decreases s.len() - j,
{
    if j < s.len() && !is_blank_char(s[j]) {
        lemma_blank_or_end(s, j + 1);
    }
}

/// The first index at or after `j` that holds no lowercase letter.
pub open spec fn scheme_end(s: Seq<char>, j: int) -> int
    decreases s.len() - j,
{
    if j < 0 || j >= s.len() {
        s.len() as int
    } else if is_lower_char(s[j]) {
        scheme_end(s, j + 1)
    } else {
        j
    }
}

pub proof fn lemma_scheme_end(s: Seq<char>, j: int)
    requires
        0 <= j <= s.len(),
    ensures
        j <= scheme_end(s, j) <= s.len(),
        scheme_end(s, j) < s.len() ==> !is_lower_char(s[scheme_end(s, j)]),
        forall|k: int| j <= k < scheme_end(s, j) ==> is_lower_char(#[trigger] s[k]),
    decreases s.len() - j,
{
    if j < s.len() && is_lower_char(s[j]) {
        lemma_scheme_end(s, j + 1);
    }
}

/// A raw URI begins at `i`: a lowercase scheme of at least two letters,
/// `://`, at least one further non-blank character, and no alphanumeric
/// character immediately before.
pub open spec fn raw_at(s: Seq<char>, i: int) -> bool {
    let e = scheme_end(s, i);
    &&& 0 <= i < s.len()
    &&& (i == 0 || !is_alnum_char(s[i - 1]))
    &&& e >= i + 2
    &&& e + 2 < s.len()
    &&& s[e] == ':'
    &&& s[e + 1] == '/'
    &&& s[e + 2] == '/'
    &&& blank_or_end(s, i) > e + 3
}

/// A raw URI runs to the first blank character.
pub open spec fn raw_end(s: Seq<char>, i: int) -> int {
    blank_or_end(s, i)
}

/// Any link alternative begins at `i`.
pub open spec fn link_at(s: Seq<char>, i: int) -> bool {
    bracket_at(s, i) || raw_at(s, i) || transclusion_at(s, i)
}

pub open spec fn link_end(s: Seq<char>, i: int) -> int {
    if bracket_at(s, i) {
        bracket_close(s, i) + 2
    } else if raw_at(s, i) {
        raw_end(s, i)
    } else {
        transclusion_close(s, i) + 2
    }
}

// ---------------------------------------------------------------------------
// Decorated text
// ---------------------------------------------------------------------------

/// A two-character decoration delimiter starting at `i`, with a matching
/// closer and non-empty content: `~~`, `,,` or `__`.
pub open spec fn decorated2_at(s: Seq<char>, i: int, c: char) -> bool {
    &&& 0 <= i
    &&& i + 1 < s.len()
    &&& s[i] == c
    &&& s[i + 1] == c
    &&& match find_pair_from(s, i + 2, c, c) {
        Some(j) => j > i + 2,
        None => false,
    }
}

/// A one-character decoration delimiter at `i` with a matching closer and
/// non-empty content: `*`, `_` or `^`.
pub open spec fn decorated1_at(s: Seq<char>, i: int, c: char) -> bool {
    &&& 0 <= i < s.len()
    &&& s[i] == c
    &&& match find_from(s, i + 1, c) {
        Some(j) => j > i + 1,
        None => false,
    }
}

/// A decorated run begins at `i`. Two-character delimiters take priority,
/// so `__` is underline rather than an empty italic run.
pub open spec fn decorated_at(s: Seq<char>, i: int) -> bool {
    ||| decorated2_at(s, i, '~')
    ||| decorated2_at(s, i, ',')
    ||| decorated2_at(s, i, '_')
    ||| decorated1_at(s, i, '*')
    ||| decorated1_at(s, i, '_')
    ||| decorated1_at(s, i, '^')
}

/// The decoration of the run beginning at `i`.
pub open spec fn decoration_at(s: Seq<char>, i: int) -> Decoration {
    if decorated2_at(s, i, '~') {
        Decoration::Strikethrough
    } else if decorated2_at(s, i, ',') {
        Decoration::Subscript
    } else if decorated2_at(s, i, '_') {
        Decoration::Underline
    } else if decorated1_at(s, i, '*') {
        Decoration::Bold
    } else if decorated1_at(s, i, '_') {
        Decoration::Italic
    } else {
        Decoration::Superscript
    }
}

/// The width of the run's delimiter: 2 for `~~`, `,,` and `__`, else 1.
pub open spec fn decorated_delim(s: Seq<char>, i: int) -> int {
    if decorated2_at(s, i, '~') || decorated2_at(s, i, ',') || decorated2_at(s, i, '_') {
        2
    } else {
        1
    }
}

/// The index of the closing delimiter.
pub open spec fn decorated_close(s: Seq<char>, i: int) -> int {
    if decorated2_at(s, i, '~') {
        find_pair_from(s, i + 2, '~', '~')->Some_0
    } else if decorated2_at(s, i, ',') {
        find_pair_from(s, i + 2, ',', ',')->Some_0
    } else if decorated2_at(s, i, '_') {
        find_pair_from(s, i + 2, '_', '_')->Some_0
    } else if decorated1_at(s, i, '*') {
        find_from(s, i + 1, '*')->Some_0
    } else if decorated1_at(s, i, '_') {
        find_from(s, i + 1, '_')->Some_0
    } else {
        find_from(s, i + 1, '^')->Some_0
    }
}

/// The index one past the whole decorated run.
pub open spec fn decorated_end(s: Seq<char>, i: int) -> int {
    decorated_close(s, i) + decorated_delim(s, i)
}

// ---------------------------------------------------------------------------
// Element boundaries
// ---------------------------------------------------------------------------

/// A non-text rule could start at `i`. In restricted mode (`rm`, inside a
/// decorated run) math and tag sequences are not recognized.
pub open spec fn special_at(s: Seq<char>, i: int, rm: bool) -> bool {
    ||| (!rm && (math_at(s, i) || tags_at(s, i)))
    ||| link_at(s, i)
    ||| decorated_at(s, i)
    ||| keyword_at(s, i) is Some
}

/// Plain text starting at `i` runs to the next index where another rule
/// could start, and always covers at least one character.
pub open spec fn text_end(s: Seq<char>, i: int, rm: bool) -> int
    decreases s.len() - i,
{
    if i < 0 || i + 1 >= s.len() {
        s.len() as int
    } else if special_at(s, i + 1, rm) {
        i + 1
    } else {
        text_end(s, i + 1, rm)
    }
}

pub proof fn lemma_text_end(s: Seq<char>, i: int, rm: bool)
    requires
        0 <= i <= s.len(),
    ensures
        i < s.len() ==> i < text_end(s, i, rm) <= s.len(),
        i == s.len() ==> text_end(s, i, rm) == s.len(),
        forall|k: int| i < k < text_end(s, i, rm) ==> !special_at(s, k, rm),
        text_end(s, i, rm) < s.len() ==> special_at(s, text_end(s, i, rm), rm),
    decreases s.len() - i,
{
    if 0 <= i && i + 1 < s.len() && !special_at(s, i + 1, rm) {
        lemma_text_end(s, i + 1, rm);
    }
}

/// The index one past the inline element that starts at `i`, following
/// the fixed priority order.
pub open spec fn inline_end_at(s: Seq<char>, i: int, rm: bool) -> int {
    if !rm && math_at(s, i) {
        math_end(s, i)
    } else if !rm && tags_at(s, i) {
        tags_end(s, i)->Some_0
    } else if link_at(s, i) {
        link_end(s, i)
    } else if decorated_at(s, i) {
        decorated_end(s, i)
    } else if keyword_at(s, i) is Some {
        keyword_end(s, i)
    } else {
        text_end(s, i, rm)
    }
}

/// Every inline element covers at least one character and stays within
/// the line: the progress fact that makes the inline grammar total.
pub proof fn lemma_inline_end_at(s: Seq<char>, i: int, rm: bool)
    requires
        0 <= i < s.len(),
    ensures
        i < inline_end_at(s, i, rm) <= s.len(),
{
    if !rm && math_at(s, i) {
        lemma_find_from(s, i + 1, '$');
    } else if !rm && tags_at(s, i) {
        lemma_tags_end(s, i);
    } else if link_at(s, i) {
        if bracket_at(s, i) {
            lemma_find_pair_from(s, i + 2, ']', ']');
        } else if raw_at(s, i) {
            lemma_blank_or_end(s, i);
            lemma_scheme_end(s, i);
        } else {
            lemma_find_pair_from(s, i + 2, '}', '}');
        }
    } else if decorated_at(s, i) {
        lemma_find_pair_from(s, i + 2, '~', '~');
        lemma_find_pair_from(s, i + 2, ',', ',');
        lemma_find_pair_from(s, i + 2, '_', '_');
        lemma_find_from(s, i + 1, '*');
        lemma_find_from(s, i + 1, '_');
        lemma_find_from(s, i + 1, '^');
    } else if keyword_at(s, i) is Some {
    } else {
        lemma_text_end(s, i, rm);
    }
}

// ---------------------------------------------------------------------------
// Link bodies
// ---------------------------------------------------------------------------

pub open spec fn starts_with(s: Seq<char>, w: Seq<char>) -> bool {
    s.len() >= w.len() && s.subrange(0, w.len() as int) == w
}

pub open spec fn diary_prefix() -> Seq<char> {
    seq!['d', 'i', 'a', 'r', 'y', ':']
}

pub open spec fn local_prefix() -> Seq<char> {
    seq!['l', 'o', 'c', 'a', 'l', ':']
}

pub open spec fn file_prefix() -> Seq<char> {
    seq!['f', 'i', 'l', 'e', ':']
}

pub open spec fn absolute_prefix() -> Seq<char> {
    seq!['/', '/']
}

pub open spec fn wiki_index_prefix() -> Seq<char> {
    seq!['w', 'i', 'k', 'i']
}

pub open spec fn wiki_named_prefix() -> Seq<char> {
    seq!['w', 'n', '.']
}

/// The first `|` of a link body separates the target from its description.
pub open spec fn pipe_of(b: Seq<char>) -> Option<int> {
    find_from(b, 0, '|')
}

/// The target part of a link body: everything before the first `|`.
pub open spec fn content_part(b: Seq<char>) -> Seq<char> {
    match pipe_of(b) {
        Some(p) => b.subrange(0, p),
        None => b,
    }
}

/// The description of a link body: everything after the first `|`, when
/// that is non-empty.
pub open spec fn desc_part(b: Seq<char>) -> Option<Seq<char>> {
    match pipe_of(b) {
        Some(p) => if p + 1 < b.len() {
            Some(b.subrange(p + 1, b.len() as int))
        } else {
            None
        },
        None => None,
    }
}

pub open spec fn desc_matches(d: Option<Description>, b: Seq<char>) -> bool {
    match (d, desc_part(b)) {
        (Some(dd), Some(sv)) => dd.text@ == sv,
        (None, None) => true,
        _ => false,
    }
}

/// An external file link tolerates no malformed description: a `|`, when
/// present, must be followed by a non-empty description holding no
/// further `|`.
pub open spec fn desc_ok(b: Seq<char>) -> bool {
    match pipe_of(b) {
        None => true,
        Some(p) => p + 1 < b.len() && find_from(b, p + 1, '|') is None,
    }
}

/// Within a target, `#` separates the path from the anchor.
pub open spec fn hash_of(cp: Seq<char>) -> Option<int> {
    find_from(cp, 0, '#')
}

pub open spec fn wiki_path_part(cp: Seq<char>) -> Seq<char> {
    match hash_of(cp) {
        Some(h) => cp.subrange(0, h),
        None => cp,
    }
}

pub open spec fn wiki_anchor_part(cp: Seq<char>) -> Option<Seq<char>> {
    match hash_of(cp) {
        Some(h) => if h + 1 < cp.len() {
            Some(cp.subrange(h + 1, cp.len() as int))
        } else {
            None
        },
        None => None,
    }
}

pub open spec fn anchor_matches(a: Option<String>, sa: Option<Seq<char>>) -> bool {
    match (a, sa) {
        (Some(av), Some(sv)) => av@ == sv,
        (None, None) => true,
        _ => false,
    }
}

/// A plain wiki link read from body `b`: path and anchor from the target
/// part, description after the `|`.
pub open spec fn wiki_body_matches(w: WikiLink, b: Seq<char>) -> bool {
    &&& w.path@ == wiki_path_part(content_part(b))
    &&& anchor_matches(w.anchor, wiki_anchor_part(content_part(b)))
    &&& desc_matches(w.description, b)
}

/// A well-formed `YYYY-MM-DD` date with month and day in range.
pub open spec fn diary_date_ok(dp: Seq<char>) -> bool {
    &&& dp.len() == 10
    &&& digits_at(dp, 0, 4)
    &&& dp[4] == '-'
    &&& digits_at(dp, 5, 2)
    &&& dp[7] == '-'
    &&& digits_at(dp, 8, 2)
    &&& 1 <= digits_val(dp, 5, 2) <= 12
    &&& 1 <= digits_val(dp, 8, 2) <= 31
}

pub open spec fn date_matches(d: Date, dp: Seq<char>) -> bool {
    &&& d.year == digits_val(dp, 0, 4)
    &&& d.month == digits_val(dp, 5, 2)
    &&& d.day == digits_val(dp, 8, 2)
}

/// The date part of a diary body: the target after `diary:`, before any
/// anchor.
pub open spec fn diary_date_part(b: Seq<char>) -> Seq<char> {
    wiki_path_part(content_part(b).skip(6))
}

/// The first index at or after `j` that holds no decimal digit.
pub open spec fn digit_end(s: Seq<char>, j: int) -> int
    decreases s.len() - j,
{
    if j < 0 || j >= s.len() {
        s.len() as int
    } else if is_digit_char(s[j]) {
        digit_end(s, j + 1)
    } else {
        j
    }
}

pub proof fn lemma_digit_end(s: Seq<char>, j: int)
    requires
        0 <= j <= s.len(),
    ensures
        j <= digit_end(s, j) <= s.len(),
        digit_end(s, j) < s.len() ==> !is_digit_char(s[digit_end(s, j)]),
        forall|k: int| j <= k < digit_end(s, j) ==> is_digit_char(#[trigger] s[k]),
    decreases s.len() - j,
{
    if j < s.len() && is_digit_char(s[j]) {
        lemma_digit_end(s, j + 1);
    }
}

/// An indexed inter-wiki body: `wiki` followed by at most nine digits and
/// a colon before any `|`.
pub open spec fn indexed_body_at(b: Seq<char>) -> bool {
    let de = digit_end(b, 4);
    &&& starts_with(b, wiki_index_prefix())
    &&& de > 4
    &&& de - 4 <= 9
    &&& de < b.len()
    &&& b[de] == ':'
    &&& (pipe_of(b) is None || de < pipe_of(b)->Some_0)
}

/// A named inter-wiki body: `wn.`, a non-empty name, and a colon before
/// any `|`.
pub open spec fn named_body_at(b: Seq<char>) -> bool {
    &&& starts_with(b, wiki_named_prefix())
    &&& match find_from(b, 3, ':') {
        Some(c) => c > 3 && (pipe_of(b) is None || c < pipe_of(b)->Some_0),
        None => false,
    }
}

/// Which link the bracketed body `b` denotes, and with which fields.
/// Prefixes that fail their own validity rule fall through to a plain
/// wiki link over the whole body.
pub open spec fn link_body_matches(l: Link, b: Seq<char>) -> bool {
    if starts_with(b, diary_prefix()) && diary_date_ok(diary_date_part(b)) {
        &&& l matches Link::Diary(dl)
        &&& date_matches(dl.date, diary_date_part(b))
        &&& anchor_matches(dl.anchor, wiki_anchor_part(content_part(b).skip(6)))
        &&& desc_matches(dl.description, b)
    } else if starts_with(b, local_prefix()) && content_part(b).len() > 6 && desc_ok(b) {
        &&& l matches Link::ExternalFile(el)
        &&& el.scheme == ExternalFileLinkScheme::Local
        &&& el.path@ == content_part(b).skip(6)
        &&& desc_matches(el.description, b)
    } else if starts_with(b, file_prefix()) && content_part(b).len() > 5 && desc_ok(b) {
        &&& l matches Link::ExternalFile(el)
        &&& el.scheme == ExternalFileLinkScheme::File
        &&& el.path@ == content_part(b).skip(5)
        &&& desc_matches(el.description, b)
    } else if starts_with(b, absolute_prefix()) && content_part(b).len() > 2 && desc_ok(b) {
        &&& l matches Link::ExternalFile(el)
        &&& el.scheme == ExternalFileLinkScheme::Absolute
        &&& el.path@ == content_part(b).skip(2)
        &&& desc_matches(el.description, b)
    } else if indexed_body_at(b) {
        &&& l matches Link::InterWiki(iw)
        &&& iw matches InterWikiLink::Indexed(il)
        &&& il.index == digits_val(b, 4, digit_end(b, 4) - 4)
        &&& wiki_body_matches(il.link, b.skip(digit_end(b, 4) + 1))
    } else if named_body_at(b) {
        &&& l matches Link::InterWiki(iw)
        &&& iw matches InterWikiLink::Named(nl)
        &&& nl.name@ == b.subrange(3, find_from(b, 3, ':')->Some_0)
        &&& wiki_body_matches(nl.link, b.skip(find_from(b, 3, ':')->Some_0 + 1))
    } else {
        &&& l matches Link::Wiki(w)
        &&& wiki_body_matches(w, b)
    }
}

// ---------------------------------------------------------------------------
// Transclusion bodies
// ---------------------------------------------------------------------------

/// The `|`-separated segments of a transclusion body.
pub open spec fn segs_of(b: Seq<char>) -> Seq<Seq<char>>
    decreases b.len(),
        via segs_of_decreases
{
    match pipe_of(b) {
        None => seq![b],
        Some(p) => seq![b.subrange(0, p)] + segs_of(b.skip(p + 1)),
    }
}

#[via_fn]
proof fn segs_of_decreases(b: Seq<char>) {
    lemma_find_from(b, 0, '|');
}

/// A property value may be wrapped in double quotes.
pub open spec fn unquote(v: Seq<char>) -> Seq<char> {
    if v.len() >= 2 && v[0] == '"' && v[v.len() - 1] == '"' {
        v.subrange(1, v.len() - 1)
    } else {
        v
    }
}

/// The key/value properties among the given segments: each segment with
/// an `=` contributes one pair; others are ignored.
pub open spec fn props_of(ss: Seq<Seq<char>>) -> Seq<(Seq<char>, Seq<char>)>
    decreases ss.len(),
{
    if ss.len() == 0 {
        Seq::empty()
    } else {
        let s0 = ss[0];
        match find_from(s0, 0, '=') {
            Some(e) => seq![(s0.subrange(0, e), unquote(s0.skip(e + 1)))] + props_of(
                ss.drop_first(),
            ),
            None => props_of(ss.drop_first()),
        }
    }
}

pub open spec fn props_match(pv: Seq<(String, String)>, ps: Seq<(Seq<char>, Seq<char>)>) -> bool {
    pv.len() == ps.len() && forall|k: int|
        0 <= k < pv.len() ==> (#[trigger] pv[k]).0@ == ps[k].0 && pv[k].1@ == ps[k].1
}

/// A transclusion read from body `b`: the target, an optional description
/// in the second segment, and properties in the remaining segments.
pub open spec fn transclusion_body_matches(t: TransclusionLink, b: Seq<char>) -> bool {
    let segs = segs_of(b);
    &&& t.uri@ == segs[0]
    &&& match t.description {
        Some(d) => segs.len() > 1 && segs[1].len() > 0 && d.text@ == segs[1],
        None => segs.len() <= 1 || segs[1].len() == 0,
    }
    &&& props_match(
        t.properties@,
        props_of(
            if segs.len() >= 2 {
                segs.skip(2)
            } else {
                Seq::empty()
            },
        ),
    )
}

/// What the link element starting at `i` holds.
pub open spec fn link_matches(l: Link, s: Seq<char>, i: int) -> bool {
    if bracket_at(s, i) {
        link_body_matches(l, s.subrange(i + 2, bracket_close(s, i)))
    } else if raw_at(s, i) {
        l matches Link::Raw(r) && r.uri@ == s.subrange(i, raw_end(s, i))
    } else {
        l matches Link::Transclusion(t) && transclusion_body_matches(
            t,
            s.subrange(i + 2, transclusion_close(s, i)),
        )
    }
}

pub open spec fn tags_match(t: Tags, s: Seq<char>, i: int) -> bool {
    &&& t.values@.len() == tags_values(s, i).len()
    &&& forall|k: int| 0 <= k < t.values@.len() ==> (#[trigger] t.values@[k])@ == tags_values(
        s,
        i,
    )[k]
}

// ---------------------------------------------------------------------------
// Element matching
// ---------------------------------------------------------------------------

/// The count of inline elements that the grammar reads from `s` starting
/// at `pos`.
pub open spec fn count_from(s: Seq<char>, pos: int, rm: bool) -> nat
    decreases s.len() - pos,
        via count_from_decreases
{
    if pos < 0 || pos >= s.len() {
        0
    } else {
        1 + count_from(s, inline_end_at(s, pos, rm), rm)
    }
}

#[via_fn]
proof fn count_from_decreases(s: Seq<char>, pos: int, rm: bool) {
    if 0 <= pos < s.len() {
        lemma_inline_end_at(s, pos, rm);
    }
}

/// The start position of the `k`-th inline element of `s`.
pub open spec fn pos_of(s: Seq<char>, k: int, rm: bool) -> int
    decreases k,
{
    if k <= 0 {
        0
    } else {
        let p = pos_of(s, k - 1, rm);
        if 0 <= p < s.len() {
            inline_end_at(s, p, rm)
        } else {
            p
        }
    }
}

/// A single-line region on line `ln` from column `c1` to `c2`.
pub open spec fn region_is(r: Region, ln: int, c1: int, c2: int) -> bool {
    r.start.line == ln && r.start.column == c1 && r.end.line == ln && r.end.column == c2
}

/// The element `e` is exactly what the inline grammar reads at `i`,
/// following the priority order: math, tags, links, decorated text,
/// keywords, text. `off` is the column offset of `s` within its line.
pub open spec fn element_matches(
    e: Located<InlineElement>,
    s: Seq<char>,
    i: int,
    off: int,
    ln: int,
) -> bool
    decreases e,
{
    &&& region_is(e.region, ln, off + i + 1, off + inline_end_at(s, i, false))
    &&& if math_at(s, i) {
        e.element matches InlineElement::Math(m) && m.formula@ == s.subrange(
            i + 1,
            math_end(s, i) - 1,
        )
    } else if tags_at(s, i) {
        e.element matches InlineElement::Tags(t) && tags_match(t, s, i)
    } else if link_at(s, i) {
        e.element matches InlineElement::Link(l) && link_matches(l, s, i)
    } else if decorated_at(s, i) {
        e.element matches InlineElement::DecoratedText(d) && d.decoration == decoration_at(s, i)
            && dtc_container_matches(
            d.contents@,
            s.subrange(i + decorated_delim(s, i), decorated_close(s, i)),
            off + i + decorated_delim(s, i),
            ln,
        )
    } else if keyword_at(s, i) is Some {
        e.element matches InlineElement::Keyword(k) && k == keyword_at(s, i)->Some_0
    } else {
        e.element matches InlineElement::Text(t) && t@ == s.subrange(i, text_end(s, i, false))
    }
}

/// The content `e` of a decorated run is exactly what the restricted
/// grammar reads at `i`: links, nested decorations, keywords and text.
pub open spec fn dtc_element_matches(
    e: Located<DecoratedTextContent>,
    s: Seq<char>,
    i: int,
    off: int,
    ln: int,
) -> bool
    decreases e,
{
    &&& region_is(e.region, ln, off + i + 1, off + inline_end_at(s, i, true))
    &&& if link_at(s, i) {
        e.element matches DecoratedTextContent::Link(l) && link_matches(l, s, i)
    } else if decorated_at(s, i) {
        e.element matches DecoratedTextContent::DecoratedText(d) && d.decoration
            == decoration_at(s, i) && dtc_container_matches(
            d.contents@,
            s.subrange(i + decorated_delim(s, i), decorated_close(s, i)),
            off + i + decorated_delim(s, i),
            ln,
        )
    } else if keyword_at(s, i) is Some {
        e.element matches DecoratedTextContent::Keyword(k) && k == keyword_at(s, i)->Some_0
    } else {
        e.element matches DecoratedTextContent::Text(t) && t@ == s.subrange(
            i,
            text_end(s, i, true),
        )
    }
}

/// The elements `es` partition all of `s`, each read by the restricted
/// grammar at its position.
pub open spec fn dtc_container_matches(
    es: Seq<Located<DecoratedTextContent>>,
    s: Seq<char>,
    off: int,
    ln: int,
) -> bool
    decreases es,
{
    &&& es.len() == count_from(s, 0, true)
    &&& forall|k: int| 0 <= k < es.len() ==> dtc_element_matches(
        #[trigger] es[k],
        s,
        pos_of(s, k, true),
        off,
        ln,
    )
}

/// The elements `es` partition all of `s`, each read by the full inline
/// grammar at its position.
pub open spec fn container_matches(
    es: Seq<Located<InlineElement>>,
    s: Seq<char>,
    off: int,
    ln: int,
) -> bool {
    &&& es.len() == count_from(s, 0, false)
    &&& forall|k: int| 0 <= k < es.len() ==> element_matches(
        #[trigger] es[k],
        s,
        pos_of(s, k, false),
        off,
        ln,
    )
}

// ---------------------------------------------------------------------------
// Recognizers
// ---------------------------------------------------------------------------

/// Whether the word `w` sits at `i` as a whole token.
pub fn check_word(seg: &Vec<char>, i: usize, w: &Vec<char>) -> (r: bool)
    requires
        i <= seg@.len(),
    ensures
        r == word_at(seg@, i as int, w@),
{
    let wl = w.len();
    let n = seg.len();
    if wl > n - i {
        return false;
    }
    if i > 0 && alnum_char(seg[i - 1]) {
        return false;
    }
    if i + wl < n && alnum_char(seg[i + wl]) {
        return false;
    }
    let mut k: usize = 0;
    while k < wl
        invariant
            0 <= k <= wl == w@.len(),
            i + wl <= n == seg@.len(),
            forall|j: int| 0 <= j < k ==> seg@[i + j] == w@[j],
        decreases wl - k,
    {
        if seg[i + k] != w[k] {
            assert(seg@.subrange(i as int, i + wl) != w@) by {
                assert(seg@.subrange(i as int, i + wl)[k as int] != w@[k as int]);
            }
            return false;
        }
        k += 1;
    }
    assert(seg@.subrange(i as int, i + wl) =~= w@);
    true
}

/// The keyword whose word sits at `i`, if any.
pub fn check_keyword(seg: &Vec<char>, i: usize) -> (r: Option<Keyword>)
    requires
        i <= seg@.len(),
    ensures
        r == keyword_at(seg@, i as int),
{
    let todo_w = vec!['T', 'O', 'D', 'O'];
    let done_w = vec!['D', 'O', 'N', 'E'];
    let started_w = vec!['S', 'T', 'A', 'R', 'T', 'E', 'D'];
    let fixme_w = vec!['F', 'I', 'X', 'M', 'E'];
    let fixed_w = vec!['F', 'I', 'X', 'E', 'D'];
    let xxx_w = vec!['X', 'X', 'X'];
    proof {
        assert(todo_w@ =~= keyword_chars(Keyword::TODO));
        assert(done_w@ =~= keyword_chars(Keyword::DONE));
        assert(started_w@ =~= keyword_chars(Keyword::STARTED));
        assert(fixme_w@ =~= keyword_chars(Keyword::FIXME));
        assert(fixed_w@ =~= keyword_chars(Keyword::FIXED));
        assert(xxx_w@ =~= keyword_chars(Keyword::XXX));
    }
    if check_word(seg, i, &todo_w) {
        Some(Keyword::TODO)
    } else if check_word(seg, i, &done_w) {
        Some(Keyword::DONE)
    } else if check_word(seg, i, &started_w) {
        Some(Keyword::STARTED)
    } else if check_word(seg, i, &fixme_w) {
        Some(Keyword::FIXME)
    } else if check_word(seg, i, &fixed_w) {
        Some(Keyword::FIXED)
    } else if check_word(seg, i, &xxx_w) {
        Some(Keyword::XXX)
    } else {
        None
    }
}

pub fn check_math(seg: &Vec<char>, i: usize) -> (r: bool)
    requires
        i < seg@.len(),
    ensures
        r == math_at(seg@, i as int),
{
    let n = seg.len();
    if seg[i] != '$' {
        return false;
    }
    match find_char(seg, i + 1, '$') {
        Some(j) => j > i + 1,
        None => false,
    }
}

/// The first index at or after `j` that holds no tag character.
pub fn scan_tag_word_end(seg: &Vec<char>, j: usize) -> (r: usize)
    requires
        j <= seg@.len(),
    ensures
        r == tag_word_end(seg@, j as int),
        j <= r <= seg@.len(),
{
    let n = seg.len();
    let mut k: usize = j;
    while k < n && (alnum_char(seg[k]) || seg[k] == '-' || seg[k] == '_')
        invariant
            j <= k <= n == seg@.len(),
            tag_word_end(seg@, j as int) == tag_word_end(seg@, k as int),
        decreases n - k,
    {
        k += 1;
    }
    k
}

/// Reads the maximal run of tags starting at the colon at `i`, giving the
/// tag words and the index one past the final colon.
pub fn scan_tags(seg: &Vec<char>, i: usize) -> (r: Option<(Vec<String>, usize)>)
    ensures
        match r {
            Some(p) => {
                &&& tags_end(seg@, i as int) == Some(p.1 as int)
                &&& p.1 <= seg@.len()
                &&& p.0@.len() == tags_values(seg@, i as int).len()
                &&& forall|k: int| 0 <= k < p.0@.len() ==> (#[trigger] p.0@[k])@ == tags_values(
                    seg@,
                    i as int,
                )[k]
            },
            None => tags_end(seg@, i as int) is None,
        },
    decreases seg@.len() - i,
{
    if i >= seg.len() || seg[i] != ':' {
        return None;
    }
    let w = scan_tag_word_end(seg, i + 1);
    if w == i + 1 || w >= seg.len() || seg[w] != ':' {
        return None;
    }
    let tag = slice_to_string(seg, i + 1, w);
    match scan_tags(seg, w) {
        Some((vs, e)) => {
            let mut vs2 = vs;
            vs2.insert(0, tag);
            assert forall|k: int| 0 <= k < vs2@.len() implies (#[trigger] vs2@[k])@
                == tags_values(seg@, i as int)[k] by {
                if k > 0 {
                    assert(vs2@[k] == vs2@.subrange(1, vs2@.len() as int)[k - 1]);
                }
            }
            Some((vs2, e))
        },
        None => {
            let vs = vec![tag];
            Some((vs, w + 1))
        },
    }
}

pub fn check_tags(seg: &Vec<char>, i: usize) -> (r: bool)
    requires
        i < seg@.len(),
    ensures
        r == tags_at(seg@, i as int),
{
    if seg[i] != ':' {
        return false;
    }
    match scan_tags(seg, i) {
        Some(_) => true,
        None => false,
    }
}

pub fn check_bracket(seg: &Vec<char>, i: usize) -> (r: bool)
    requires
        i < seg@.len(),
    ensures
        r == bracket_at(seg@, i as int),
{
    let n = seg.len();
    if !(i + 1 < n && seg[i] == '[' && seg[i + 1] == '[') {
        return false;
    }
    match find_pair(seg, i + 2, ']', ']') {
        Some(c) => c > i + 2,
        None => false,
    }
}

pub fn check_transclusion(seg: &Vec<char>, i: usize) -> (r: bool)
    requires
        i < seg@.len(),
    ensures
        r == transclusion_at(seg@, i as int),
{
    let n = seg.len();
    if !(i + 1 < n && seg[i] == '{' && seg[i + 1] == '{') {
        return false;
    }
    match find_pair(seg, i + 2, '}', '}') {
        Some(c) => c > i + 2,
        None => false,
    }
}

/// The first blank character at or after `j`, or the end of the line.
pub fn scan_blank_or_end(seg: &Vec<char>, j: usize) -> (r: usize)
    requires
        j <= seg@.len(),
    ensures
        r == blank_or_end(seg@, j as int),
        j <= r <= seg@.len(),
{
    let n = seg.len();
    let mut k: usize = j;
    while k < n && !blank_char(seg[k])
        invariant
            j <= k <= n == seg@.len(),
            blank_or_end(seg@, j as int) == blank_or_end(seg@, k as int),
        decreases n - k,
    {
        k += 1;
    }
    k
}

/// The first index at or after `j` that holds no lowercase letter.
pub fn scan_scheme_end(seg: &Vec<char>, j: usize) -> (r: usize)
    requires
        j <= seg@.len(),
    ensures
        r == scheme_end(seg@, j as int),
        j <= r <= seg@.len(),
{
    let n = seg.len();
    let mut k: usize = j;
    while k < n && lower_char(seg[k])
        invariant
            j <= k <= n == seg@.len(),
            scheme_end(seg@, j as int) == scheme_end(seg@, k as int),
        decreases n - k,
    {
        k += 1;
    }
    k
}

pub fn check_raw(seg: &Vec<char>, i: usize) -> (r: bool)
    requires
        i < seg@.len(),
    ensures
        r == raw_at(seg@, i as int),
{
    let n = seg.len();
    if i > 0 && alnum_char(seg[i - 1]) {
        return false;
    }
    let e = scan_scheme_end(seg, i);
    if n - e < 3 || e - i < 2 {
        return false;
    }
    if !(seg[e] == ':' && seg[e + 1] == '/' && seg[e + 2] == '/') {
        return false;
    }
    scan_blank_or_end(seg, i) > e + 3
}

pub fn check_link(seg: &Vec<char>, i: usize) -> (r: bool)
    requires
        i < seg@.len(),
    ensures
        r == link_at(seg@, i as int),
{
    check_bracket(seg, i) || check_raw(seg, i) || check_transclusion(seg, i)
}

fn check_decorated2(seg: &Vec<char>, i: usize, c: char) -> (r: bool)
    requires
        i < seg@.len(),
    ensures
        r == decorated2_at(seg@, i as int, c),
{
    let n = seg.len();
    if !(i + 1 < n && seg[i] == c && seg[i + 1] == c) {
        return false;
    }
    match find_pair(seg, i + 2, c, c) {
        Some(j) => j > i + 2,
        None => false,
    }
}

fn check_decorated1(seg: &Vec<char>, i: usize, c: char) -> (r: bool)
    requires
        i < seg@.len(),
    ensures
        r == decorated1_at(seg@, i as int, c),
{
    let n = seg.len();
    if seg[i] != c {
        return false;
    }
    match find_char(seg, i + 1, c) {
        Some(j) => j > i + 1,
        None => false,
    }
}

pub fn check_decorated(seg: &Vec<char>, i: usize) -> (r: bool)
    requires
        i < seg@.len(),
    ensures
        r == decorated_at(seg@, i as int),
{
    check_decorated2(seg, i, '~') || check_decorated2(seg, i, ',') || check_decorated2(
        seg,
        i,
        '_',
    ) || check_decorated1(seg, i, '*') || check_decorated1(seg, i, '_') || check_decorated1(
        seg,
        i,
        '^',
    )
}

/// The decoration, delimiter width and closer index of the decorated run
/// starting at `i`.
pub fn decorated_info(seg: &Vec<char>, i: usize) -> (r: (Decoration, usize, usize))
    requires
        i < seg@.len(),
        decorated_at(seg@, i as int),
    ensures
        r.0 == decoration_at(seg@, i as int),
        r.1 == decorated_delim(seg@, i as int),
        r.2 == decorated_close(seg@, i as int),
        i + r.1 < r.2,
        r.2 + r.1 <= seg@.len(),
{
    let n = seg.len();
    proof {
        lemma_find_pair_from(seg@, i + 2, '~', '~');
        lemma_find_pair_from(seg@, i + 2, ',', ',');
        lemma_find_pair_from(seg@, i + 2, '_', '_');
        lemma_find_from(seg@, i + 1, '*');
        lemma_find_from(seg@, i + 1, '_');
        lemma_find_from(seg@, i + 1, '^');
    }
    if check_decorated2(seg, i, '~') {
        let j = find_pair(seg, i + 2, '~', '~').unwrap();
        (Decoration::Strikethrough, 2, j)
    } else if check_decorated2(seg, i, ',') {
        let j = find_pair(seg, i + 2, ',', ',').unwrap();
        (Decoration::Subscript, 2, j)
    } else if check_decorated2(seg, i, '_') {
        let j = find_pair(seg, i + 2, '_', '_').unwrap();
        (Decoration::Underline, 2, j)
    } else if check_decorated1(seg, i, '*') {
        let j = find_char(seg, i + 1, '*').unwrap();
        (Decoration::Bold, 1, j)
    } else if check_decorated1(seg, i, '_') {
        let j = find_char(seg, i + 1, '_').unwrap();
        (Decoration::Italic, 1, j)
    } else {
        let j = find_char(seg, i + 1, '^').unwrap();
        (Decoration::Superscript, 1, j)
    }
}

/// A non-text rule could start at `i`.
pub fn check_special(seg: &Vec<char>, i: usize, rm: bool) -> (r: bool)
    requires
        i < seg@.len(),
    ensures
        r == special_at(seg@, i as int, rm),
{
    if !rm && (check_math(seg, i) || check_tags(seg, i)) {
        return true;
    }
    if check_link(seg, i) || check_decorated(seg, i) {
        return true;
    }
    match check_keyword(seg, i) {
        Some(_) => true,
        None => false,
    }
}

/// The end of the plain text run starting at `i`.
pub fn scan_text_end(seg: &Vec<char>, i: usize, rm: bool) -> (r: usize)
    requires
        i < seg@.len(),
    ensures
        r == text_end(seg@, i as int, rm),
        i < r <= seg@.len(),
{
    proof {
        lemma_text_end(seg@, i as int, rm);
    }
    let n = seg.len();
    let mut j: usize = i;
    loop
        invariant
            i <= j < n == seg@.len(),
            text_end(seg@, i as int, rm) == text_end(seg@, j as int, rm),
        decreases n - j,
    {
        if j + 1 >= n {
            return n;
        }
        if check_special(seg, j + 1, rm) {
            return j + 1;
        }
        j += 1;
    }
}

// ---------------------------------------------------------------------------
// Link parsing
// ---------------------------------------------------------------------------

/// Whether `w` is a prefix of `b`.
pub fn check_prefix(b: &Vec<char>, w: &Vec<char>) -> (r: bool)
    ensures
        r == starts_with(b@, w@),
{
    let wl = w.len();
    let n = b.len();
    if wl > n {
        return false;
    }
    let mut k: usize = 0;
    while k < wl
        invariant
            0 <= k <= wl == w@.len(),
            wl <= n == b@.len(),
            forall|j: int| 0 <= j < k ==> b@[j] == w@[j],
        decreases wl - k,
    {
        if b[k] != w[k] {
            assert(b@.subrange(0, wl as int) != w@) by {
                assert(b@.subrange(0, wl as int)[k as int] != w@[k as int]);
            }
            return false;
        }
        k += 1;
    }
    assert(b@.subrange(0, wl as int) =~= w@);
    true
}

/// The first index at or after `j` that holds no decimal digit.
pub fn scan_digit_end(seg: &Vec<char>, j: usize) -> (r: usize)
    requires
        j <= seg@.len(),
    ensures
        r == digit_end(seg@, j as int),
        j <= r <= seg@.len(),
{
    let n = seg.len();
    let mut k: usize = j;
    while k < n && digit_char(seg[k])
        invariant
            j <= k <= n == seg@.len(),
            digit_end(seg@, j as int) == digit_end(seg@, k as int),
        decreases n - k,
    {
        k += 1;
    }
    k
}

/// Reads a `YYYY-MM-DD` date, checking the month and day ranges.
pub fn check_date(dp: &Vec<char>) -> (r: Option<Date>)
    ensures
        match r {
            Some(d) => diary_date_ok(dp@) && date_matches(d, dp@),
            None => !diary_date_ok(dp@),
        },
{
    if dp.len() != 10 {
        return None;
    }
    if !(digit_char(dp[0]) && digit_char(dp[1]) && digit_char(dp[2]) && digit_char(dp[3])
        && dp[4] == '-' && digit_char(dp[5]) && digit_char(dp[6]) && dp[7] == '-' && digit_char(
        dp[8],
    ) && digit_char(dp[9])) {
        return None;
    }
    assert(digits_at(dp@, 0, 4));
    assert(digits_at(dp@, 5, 2));
    assert(digits_at(dp@, 8, 2));
    let year = parse_digits(dp, 0, 4);
    let month = parse_digits(dp, 5, 2);
    let day = parse_digits(dp, 8, 2);
    if month < 1 || month > 12 || day < 1 || day > 31 {
        return None;
    }
    proof {
        crate::chars::lemma_digits_val_bound(dp@, 0, 4);
        crate::chars::lemma_pow10_mono(4, 4);
        reveal_with_fuel(crate::chars::pow10, 6);
    }
    Some(Date::new(year as i32, month as u8, day as u8))
}

/// Splits the target and description of a link body at the first `|`.
fn split_body(b: &Vec<char>) -> (r: (Vec<char>, Option<Description>))
    ensures
        r.0@ == content_part(b@),
        desc_matches(r.1, b@),
{
    let n = b.len();
    match find_char(b, 0, '|') {
        Some(p) => {
            let cp = slice_vec(b, 0, p);
            let desc = if p + 1 < n {
                Some(Description::new(slice_to_string(b, p + 1, n)))
            } else {
                None
            };
            (cp, desc)
        },
        None => (slice_vec(b, 0, n), None),
    }
}

/// Reads a plain wiki link from a body: path, `#`-anchor, description.
pub fn parse_wiki_body(b: &Vec<char>) -> (w: WikiLink)
    ensures
        wiki_body_matches(w, b@),
{
    let (cp, desc) = split_body(b);
    let m = cp.len();
    let (path, anchor) = match find_char(&cp, 0, '#') {
        Some(h) => (
            slice_to_string(&cp, 0, h),
            if h + 1 < m {
                Some(slice_to_string(&cp, h + 1, m))
            } else {
                None
            },
        ),
        None => {
            let p = slice_to_string(&cp, 0, m);
            assert(p@ =~= cp@);
            (p, None)
        },
    };
    WikiLink::new(path, anchor, desc)
}

/// Reads the link denoted by a bracketed body, dispatching on its prefix.
pub fn parse_link_body(b: &Vec<char>) -> (l: Link)
    ensures
        link_body_matches(l, b@),
{
    let diary_w = vec!['d', 'i', 'a', 'r', 'y', ':'];
    let local_w = vec!['l', 'o', 'c', 'a', 'l', ':'];
    let file_w = vec!['f', 'i', 'l', 'e', ':'];
    let abs_w = vec!['/', '/'];
    let wiki_w = vec!['w', 'i', 'k', 'i'];
    let wn_w = vec!['w', 'n', '.'];
    proof {
        assert(diary_w@ =~= diary_prefix());
        assert(local_w@ =~= local_prefix());
        assert(file_w@ =~= file_prefix());
        assert(abs_w@ =~= absolute_prefix());
        assert(wiki_w@ =~= wiki_index_prefix());
        assert(wn_w@ =~= wiki_named_prefix());
    }
    let n = b.len();
    let (cp, desc) = split_body(b);
    let m = cp.len();
    let desc_fine = match find_char(b, 0, '|') {
        None => true,
        Some(p) => p + 1 < n && matches!(find_char(b, p + 1, '|'), None),
    };
    if check_prefix(b, &diary_w) {
        // the prefix pins the first six characters, so no other branch
        // of the dispatch can fire
        proof {
            assert(b@[0] == 'd');
            assert(!starts_with(b@, local_prefix())) by {
                if starts_with(b@, local_prefix()) {
                    assert(b@.subrange(0, 6)[0] == 'l');
                }
            }
            assert(!starts_with(b@, file_prefix())) by {
                if starts_with(b@, file_prefix()) {
                    assert(b@.subrange(0, 5)[0] == 'f');
                }
            }
            assert(!starts_with(b@, absolute_prefix())) by {
                if starts_with(b@, absolute_prefix()) {
                    assert(b@.subrange(0, 2)[0] == '/');
                }
            }
            assert(!starts_with(b@, wiki_index_prefix())) by {
                if starts_with(b@, wiki_index_prefix()) {
                    assert(b@.subrange(0, 4)[0] == 'w');
                }
            }
            assert(!starts_with(b@, wiki_named_prefix())) by {
                if starts_with(b@, wiki_named_prefix()) {
                    assert(b@.subrange(0, 3)[0] == 'w');
                }
            }
        }
        proof {
            lemma_find_from(b@, 0, '|');
            if pipe_of(b@) is Some && pipe_of(b@)->Some_0 < 6 {
                assert(b@.subrange(0, 6)[pipe_of(b@)->Some_0] == b@[pipe_of(b@)->Some_0]);
            }
        }
        let dcp = slice_vec(&cp, 6, m);
        assert(dcp@ =~= content_part(b@).skip(6));
        let dm = dcp.len();
        let (datepart, anchor) = match find_char(&dcp, 0, '#') {
            Some(h) => (
                slice_vec(&dcp, 0, h),
                if h + 1 < dm {
                    Some(slice_to_string(&dcp, h + 1, dm))
                } else {
                    None
                },
            ),
            None => {
                let dp = slice_vec(&dcp, 0, dm);
                assert(dp@ =~= dcp@);
                (dp, None)
            },
        };
        match check_date(&datepart) {
            Some(date) => Link::Diary(DiaryLink::new(date, anchor, desc)),
            None => Link::Wiki(parse_wiki_body(b)),
        }
    } else if check_prefix(b, &local_w) && m > 6 && desc_fine {
        let path = slice_to_string(&cp, 6, m);
        assert(path@ =~= content_part(b@).skip(6));
        Link::ExternalFile(ExternalFileLink::new(ExternalFileLinkScheme::Local, path, desc))
    } else if check_prefix(b, &file_w) && m > 5 && desc_fine {
        proof {
            assert(!starts_with(b@, local_prefix())
                || !(content_part(b@).len() > 6)) by {
                if starts_with(b@, local_prefix()) {
                    assert(b@.subrange(0, 6)[0] == 'l');
                    assert(b@.subrange(0, 5)[0] == 'f');
                }
            }
        }
        let path = slice_to_string(&cp, 5, m);
        assert(path@ =~= content_part(b@).skip(5));
        Link::ExternalFile(ExternalFileLink::new(ExternalFileLinkScheme::File, path, desc))
    } else if check_prefix(b, &abs_w) && m > 2 && desc_fine {
        let path = slice_to_string(&cp, 2, m);
        assert(path@ =~= content_part(b@).skip(2));
        Link::ExternalFile(ExternalFileLink::new(ExternalFileLinkScheme::Absolute, path, desc))
    } else if check_prefix(b, &wiki_w) {
        let de = scan_digit_end(b, 4);
        let pipe = find_char(b, 0, '|');
        let pipe_ok = match pipe {
            Some(p) => de < p,
            None => true,
        };
        if de > 4 && de - 4 <= 9 && de < n && b[de] == ':' && pipe_ok {
            proof {
                lemma_digit_end(b@, 4);
            }
            let index = parse_digits(b, 4, de - 4);
            let body = slice_vec(b, de + 1, n);
            assert(body@ =~= b@.skip(de + 1));
            let link = parse_wiki_body(&body);
            Link::InterWiki(InterWikiLink::Indexed(IndexedInterWikiLink::new(index, link)))
        } else {
            assert(!indexed_body_at(b@));
            assert(!named_body_at(b@)) by {
                if starts_with(b@, wiki_named_prefix()) {
                    assert(b@.subrange(0, 3)[1] == 'n');
                    assert(b@.subrange(0, 4)[1] == 'i');
                }
            }
            Link::Wiki(parse_wiki_body(b))
        }
    } else if check_prefix(b, &wn_w) {
        let colon = find_char(b, 3, ':');
        let pipe = find_char(b, 0, '|');
        let ok = match colon {
            Some(c) => c > 3 && match pipe {
                Some(p) => c < p,
                None => true,
            },
            None => false,
        };
        if ok {
            let c = match colon {
                Some(c) => c,
                None => 0,
            };
            let name = slice_to_string(b, 3, c);
            let body = slice_vec(b, c + 1, n);
            assert(body@ =~= b@.skip(c + 1));
            let link = parse_wiki_body(&body);
            Link::InterWiki(InterWikiLink::Named(NamedInterWikiLink::new(name, link)))
        } else {
            assert(!named_body_at(b@));
            assert(!indexed_body_at(b@)) by {
                if starts_with(b@, wiki_index_prefix()) {
                    assert(b@.subrange(0, 4)[1] == 'i');
                    assert(b@.subrange(0, 3)[1] == 'n');
                }
            }
            Link::Wiki(parse_wiki_body(b))
        }
    } else {
        Link::Wiki(parse_wiki_body(b))
    }
}

/// Splits a transclusion body into its `|`-separated segments.
fn split_segs(b: &Vec<char>) -> (r: Vec<Vec<char>>)
    ensures
        views(r@) == segs_of(b@),
        r@.len() >= 1,
    decreases b@.len(),
{
    let n = b.len();
    match find_char(b, 0, '|') {
        None => {
            let whole = slice_vec(b, 0, n);
            let r = vec![whole];
            assert(views(r@) =~~= segs_of(b@));
            r
        },
        Some(p) => {
            let head = slice_vec(b, 0, p);
            let rest = slice_vec(b, p + 1, n);
            assert(rest@ =~= b@.skip(p + 1));
            let mut rs = split_segs(&rest);
            rs.insert(0, head);
            assert(views(rs@) =~= seq![b@.subrange(0, p as int)] + segs_of(b@.skip(p + 1)));
            rs
        },
    }
}

/// Reads the key/value properties among the segments from `k` on.
fn build_props(segs: &Vec<Vec<char>>, k: usize) -> (r: Vec<(String, String)>)
    requires
        k <= segs@.len(),
    ensures
        props_match(r@, props_of(views(segs@).skip(k as int))),
    decreases segs@.len() - k,
{
    if k == segs.len() {
        let r: Vec<(String, String)> = Vec::new();
        assert(views(segs@).skip(k as int) =~= Seq::<Seq<char>>::empty());
        return r;
    }
    let s0 = &segs[k];
    let sn = s0.len();
    let ghost tail = views(segs@).skip(k as int);
    proof {
        assert(tail[0] == segs@[k as int]@);
        assert(tail.drop_first() =~= views(segs@).skip(k as int + 1));
    }
    match find_char(s0, 0, '=') {
        Some(e) => {
            let key = slice_to_string(s0, 0, e);
            let valv = slice_vec(s0, e + 1, sn);
            assert(valv@ =~= segs@[k as int]@.skip(e + 1));
            let vm = valv.len();
            let val = if vm >= 2 && valv[0] == '"' && valv[vm - 1] == '"' {
                slice_to_string(&valv, 1, vm - 1)
            } else {
                slice_to_string(&valv, 0, vm)
            };
            assert(val@ == unquote(valv@));
            let mut rs = build_props(segs, k + 1);
            rs.insert(0, (key, val));
            assert forall|j: int| 0 <= j < rs@.len() implies (#[trigger] rs@[j]).0@ == props_of(
                tail,
            )[j].0 && rs@[j].1@ == props_of(tail)[j].1 by {
                if j > 0 {
                    assert(rs@[j] == rs@.subrange(1, rs@.len() as int)[j - 1]);
                }
            }
            rs
        },
        None => build_props(segs, k + 1),
    }
}

/// Reads a transclusion from its body: target, description, properties.
pub fn parse_transclusion_body(b: &Vec<char>) -> (t: TransclusionLink)
    ensures
        transclusion_body_matches(t, b@),
{
    let segs = split_segs(b);
    proof {
        assert(views(segs@)[0] == segs@[0]@);
    }
    let uri = chars_to_string(&segs[0]);
    let desc = if segs.len() > 1 && segs[1].len() > 0 {
        proof {
            assert(views(segs@)[1] == segs@[1]@);
        }
        Some(Description::new(chars_to_string(&segs[1])))
    } else {
        None
    };
    let props = if segs.len() < 2 {
        let empty_props: Vec<(String, String)> = Vec::new();
        empty_props
    } else {
        build_props(&segs, 2)
    };
    TransclusionLink::new(uri, desc, props)
}

/// Reads the link element starting at `i`, following the priority order:
/// bracketed, raw, transclusion.
pub fn parse_link(seg: &Vec<char>, i: usize) -> (r: (Link, usize))
    requires
        i < seg@.len(),
        link_at(seg@, i as int),
    ensures
        link_matches(r.0, seg@, i as int),
        r.1 == link_end(seg@, i as int),
        i < r.1 <= seg@.len(),
{
    let n = seg.len();
    if check_bracket(seg, i) {
        let c = match find_pair(seg, i + 2, ']', ']') {
            Some(c) => c,
            None => 0,
        };
        let inner = slice_vec(seg, i + 2, c);
        let l = parse_link_body(&inner);
        (l, c + 2)
    } else if check_raw(seg, i) {
        proof {
            lemma_blank_or_end(seg@, i as int);
        }
        let e = scan_blank_or_end(seg, i);
        proof {
            lemma_scheme_end(seg@, i as int);
        }
        let uri = slice_to_string(seg, i, e);
        (Link::Raw(RawLink::new(uri)), e)
    } else {
        let c = match find_pair(seg, i + 2, '}', '}') {
            Some(c) => c,
            None => 0,
        };
        let inner = slice_vec(seg, i + 2, c);
        let t = parse_transclusion_body(&inner);
        (Link::Transclusion(t), c + 2)
    }
}

/// Reads a bracketed external file link at `i`: `[[local:...]]`,
/// `[[file:...]]` or `[[//...]]`, with an optional description. Returns
/// the link and the index one past `]]`, or nothing when no such link
/// starts at `i`.
pub fn external_file_link(seg: &Vec<char>, i: usize) -> (r: Option<(ExternalFileLink, usize)>)
    requires
        i < seg@.len(),
    ensures
        (r is Some) <==> (bracket_at(seg@, i as int) && exists_external(
            seg@.subrange(i + 2, bracket_close(seg@, i as int)),
        )),
        r matches Some(p) ==> p.1 == bracket_close(seg@, i as int) + 2 && link_body_matches(
            Link::ExternalFile(p.0),
            seg@.subrange(i + 2, bracket_close(seg@, i as int)),
        ),
{
    let n = seg.len();
    if !check_bracket(seg, i) {
        return None;
    }
    let c = match find_pair(seg, i + 2, ']', ']') {
        Some(c) => c,
        None => 0,
    };
    let inner = slice_vec(seg, i + 2, c);
    let ghost b = inner@;
    let l = parse_link_body(&inner);
    proof {
        if starts_with(b, diary_prefix()) {
            assert(!starts_with(b, local_prefix())) by {
                if starts_with(b, local_prefix()) {
                    assert(b.subrange(0, 6)[0] == 'l');
                    assert(b.subrange(0, 6)[0] == 'd');
                }
            }
            assert(!starts_with(b, file_prefix())) by {
                if starts_with(b, file_prefix()) {
                    assert(b.subrange(0, 5)[0] == 'f');
                    assert(b.subrange(0, 6)[0] == 'd');
                }
            }
            assert(!starts_with(b, absolute_prefix())) by {
                if starts_with(b, absolute_prefix()) {
                    assert(b.subrange(0, 2)[0] == '/');
                    assert(b.subrange(0, 6)[0] == 'd');
                }
            }
        }
    }
    match l {
        Link::ExternalFile(el) => Some((el, c + 2)),
        _ => None,
    }
}

/// A bracketed body denotes an external file link: one of the three
/// scheme prefixes, a non-empty path after it, and a well-shaped
/// description when a `|` is present.
pub open spec fn exists_external(b: Seq<char>) -> bool {
    &&& desc_ok(b)
    &&& {
        ||| starts_with(b, local_prefix()) && content_part(b).len() > 6
        ||| starts_with(b, file_prefix()) && content_part(b).len() > 5
        ||| starts_with(b, absolute_prefix()) && content_part(b).len() > 2
    }
}

// ---------------------------------------------------------------------------
// Element and container parsing
// ---------------------------------------------------------------------------

/// Parses the single inline element starting at `i`, trying the
/// alternatives in their fixed order. Returns the element and the index
/// one past it. `off` is the column offset of `seg` within its line and
/// `ln` the 1-based line number.
pub fn inline_component(seg: &Vec<char>, i: usize, off: usize, ln: usize) -> (r: (
    Located<InlineElement>,
    usize,
))
    requires
        i < seg@.len(),
        off + seg@.len() <= usize::MAX,
    ensures
        element_matches(r.0, seg@, i as int, off as int, ln as int),
        r.1 == inline_end_at(seg@, i as int, false),
        i < r.1 <= seg@.len(),
    decreases seg@.len(), 0int,
{
    proof {
        lemma_inline_end_at(seg@, i as int, false);
    }
    if check_math(seg, i) {
        let j = match find_char(seg, i + 1, '$') {
            Some(j) => j,
            None => 0,
        };
        let formula = slice_to_string(seg, i + 1, j);
        let end = j + 1;
        let region = Region::from_parts(ln, off + i + 1, ln, off + end);
        (Located::new(InlineElement::Math(MathInline::new(formula)), region), end)
    } else if check_tags(seg, i) {
        let (vs, end) = match scan_tags(seg, i) {
            Some(p) => p,
            None => (Vec::new(), 0),
        };
        let region = Region::from_parts(ln, off + i + 1, ln, off + end);
        (Located::new(InlineElement::Tags(Tags::new(vs)), region), end)
    } else if check_link(seg, i) {
        let (l, end) = parse_link(seg, i);
        let region = Region::from_parts(ln, off + i + 1, ln, off + end);
        (Located::new(InlineElement::Link(l), region), end)
    } else if check_decorated(seg, i) {
        let (deco, delim, close) = decorated_info(seg, i);
        let inner = slice_vec(seg, i + delim, close);
        let contents = decorated_contents(&inner, off + i + delim, ln);
        let end = close + delim;
        let region = Region::from_parts(ln, off + i + 1, ln, off + end);
        (
            Located::new(
                InlineElement::DecoratedText(DecoratedText::new(contents, deco)),
                region,
            ),
            end,
        )
    } else {
        match check_keyword(seg, i) {
            Some(k) => {
                let wl = match k {
                    Keyword::TODO => 4,
                    Keyword::DONE => 4,
                    Keyword::STARTED => 7,
                    Keyword::FIXME => 5,
                    Keyword::FIXED => 5,
                    Keyword::XXX => 3,
                };
                let end = i + wl;
                let region = Region::from_parts(ln, off + i + 1, ln, off + end);
                (Located::new(InlineElement::Keyword(k), region), end)
            },
            None => {
                let end = scan_text_end(seg, i, false);
                let text = slice_to_string(seg, i, end);
                let region = Region::from_parts(ln, off + i + 1, ln, off + end);
                (Located::new(InlineElement::Text(text), region), end)
            },
        }
    }
}

/// Parses the restricted element starting at `i` inside a decorated run.
fn decorated_content_at(seg: &Vec<char>, i: usize, off: usize, ln: usize) -> (r: (
    Located<DecoratedTextContent>,
    usize,
))
    requires
        i < seg@.len(),
        off + seg@.len() <= usize::MAX,
    ensures
        dtc_element_matches(r.0, seg@, i as int, off as int, ln as int),
        r.1 == inline_end_at(seg@, i as int, true),
        i < r.1 <= seg@.len(),
    decreases seg@.len(), 0int,
{
    proof {
        lemma_inline_end_at(seg@, i as int, true);
    }
    if check_link(seg, i) {
        let (l, end) = parse_link(seg, i);
        let region = Region::from_parts(ln, off + i + 1, ln, off + end);
        (Located::new(DecoratedTextContent::Link(l), region), end)
    } else if check_decorated(seg, i) {
        let (deco, delim, close) = decorated_info(seg, i);
        let inner = slice_vec(seg, i + delim, close);
        let contents = decorated_contents(&inner, off + i + delim, ln);
        let end = close + delim;
        let region = Region::from_parts(ln, off + i + 1, ln, off + end);
        (
            Located::new(
                DecoratedTextContent::DecoratedText(DecoratedText::new(contents, deco)),
                region,
            ),
            end,
        )
    } else {
        match check_keyword(seg, i) {
            Some(k) => {
                let wl = match k {
                    Keyword::TODO => 4,
                    Keyword::DONE => 4,
                    Keyword::STARTED => 7,
                    Keyword::FIXME => 5,
                    Keyword::FIXED => 5,
                    Keyword::XXX => 3,
                };
                let end = i + wl;
                let region = Region::from_parts(ln, off + i + 1, ln, off + end);
                (Located::new(DecoratedTextContent::Keyword(k), region), end)
            },
            None => {
                let end = scan_text_end(seg, i, true);
                let text = slice_to_string(seg, i, end);
                let region = Region::from_parts(ln, off + i + 1, ln, off + end);
                (Located::new(DecoratedTextContent::Text(text), region), end)
            },
        }
    }
}

/// Parses the whole content of a decorated run.
fn decorated_contents(seg: &Vec<char>, off: usize, ln: usize) -> (r: Vec<
    Located<DecoratedTextContent>,
>)
    requires
        off + seg@.len() <= usize::MAX,
    ensures
        dtc_container_matches(r@, seg@, off as int, ln as int),
    decreases seg@.len(), 1int,
{
    let n = seg.len();
    let mut es: Vec<Located<DecoratedTextContent>> = Vec::new();
    let mut pos: usize = 0;
    while pos < n
        invariant
            0 <= pos <= n == seg@.len(),
            off + seg@.len() <= usize::MAX,
            pos == pos_of(seg@, es@.len() as int, true),
            count_from(seg@, 0, true) == es@.len() + count_from(seg@, pos as int, true),
            forall|k: int| 0 <= k < es@.len() ==> dtc_element_matches(
                #[trigger] es@[k],
                seg@,
                pos_of(seg@, k, true),
                off as int,
                ln as int,
            ),
        decreases n - pos,
    {
        let ghost oldlen = es@.len() as int;
        let (e, end) = decorated_content_at(seg, pos, off, ln);
        es.push(e);
        proof {
            assert(pos_of(seg@, oldlen + 1, true) == end);
        }
        pos = end;
    }
    es
}

/// Parses the inline elements covering the whole of `seg`, in order;
/// the resulting elements partition the segment. An empty segment
/// yields an empty container: totality here is what lets every
/// enclosing block rule succeed on any line.
pub fn inline_component_container(seg: &Vec<char>, off: usize, ln: usize) -> (r:
    InlineElementContainer)
    requires
        off + seg@.len() <= usize::MAX,
    ensures
        container_matches(r.elements@, seg@, off as int, ln as int),
    decreases seg@.len(), 1int,
{
    let n = seg.len();
    let mut es: Vec<Located<InlineElement>> = Vec::new();
    let mut pos: usize = 0;
    while pos < n
        invariant
            0 <= pos <= n == seg@.len(),
            off + seg@.len() <= usize::MAX,
            pos == pos_of(seg@, es@.len() as int, false),
            count_from(seg@, 0, false) == es@.len() + count_from(seg@, pos as int, false),
            forall|k: int| 0 <= k < es@.len() ==> element_matches(
                #[trigger] es@[k],
                seg@,
                pos_of(seg@, k, false),
                off as int,
                ln as int,
            ),
        decreases n - pos,
    {
        let ghost oldlen = es@.len() as int;
        let (e, end) = inline_component(seg, pos, off, ln);
        es.push(e);
        proof {
            assert(pos_of(seg@, oldlen + 1, false) == end);
        }
        pos = end;
    }
    InlineElementContainer::new(es)
}

} // verus!
