//! Character-level helpers shared by the grammar engine: classification,
//! conversion between strings and character vectors, and first-occurrence
//! scans.

use vstd::prelude::*;

verus! {

/// Space or tab: the characters that count as blank inside a line.
pub open spec fn is_blank_char(c: char) -> bool {
    c == ' ' || c == '\t'
}

pub open spec fn is_digit_char(c: char) -> bool {
    '0' <= c && c <= '9'
}

pub open spec fn is_lower_char(c: char) -> bool {
    'a' <= c && c <= 'z'
}

pub open spec fn is_upper_char(c: char) -> bool {
    'A' <= c && c <= 'Z'
}

pub open spec fn is_alpha_char(c: char) -> bool {
    is_lower_char(c) || is_upper_char(c)
}

pub open spec fn is_alnum_char(c: char) -> bool {
    is_alpha_char(c) || is_digit_char(c)
}

/// A whole sequence of blank characters.
pub open spec fn all_blank(s: Seq<char>) -> bool {
    forall|i: int| 0 <= i < s.len() ==> is_blank_char(#[trigger] s[i])
}

/// The count of leading blank characters of `s`.
pub open spec fn indent_of(s: Seq<char>) -> int
    decreases s.len(),
{
    if s.len() == 0 || !is_blank_char(s[0]) {
        0
    } else {
        1 + indent_of(s.subrange(1, s.len() as int))
    }
}

pub proof fn lemma_indent_of_bounds(s: Seq<char>)
    ensures
        0 <= indent_of(s) <= s.len(),
        forall|i: int| 0 <= i < indent_of(s) ==> is_blank_char(#[trigger] s[i]),
        indent_of(s) < s.len() ==> !is_blank_char(s[indent_of(s)]),
    decreases s.len(),
{
    if s.len() == 0 || !is_blank_char(s[0]) {
    } else {
        let t = s.subrange(1, s.len() as int);
        lemma_indent_of_bounds(t);
        assert forall|i: int| 0 <= i < indent_of(s) implies is_blank_char(#[trigger] s[i]) by {
            if i > 0 {
                assert(t[i - 1] == s[i]);
            }
        }
    }
}

/// The index one past the last non-blank character of `s`: trimming the
/// end of `s` keeps exactly `s.subrange(0, trim_end_of(s))`.
pub open spec fn trim_end_of(s: Seq<char>) -> int
    decreases s.len(),
{
    if s.len() == 0 {
        0
    } else if is_blank_char(s[s.len() - 1]) {
        trim_end_of(s.subrange(0, s.len() - 1))
    } else {
        s.len() as int
    }
}

pub proof fn lemma_trim_end_of_bounds(s: Seq<char>)
    ensures
        0 <= trim_end_of(s) <= s.len(),
        forall|i: int| trim_end_of(s) <= i < s.len() ==> is_blank_char(#[trigger] s[i]),
        trim_end_of(s) > 0 ==> !is_blank_char(s[trim_end_of(s) - 1]),
    decreases s.len(),
{
    if s.len() == 0 {
    } else if is_blank_char(s[s.len() - 1]) {
        lemma_trim_end_of_bounds(s.subrange(0, s.len() - 1));
        assert forall|i: int| trim_end_of(s) <= i < s.len() implies is_blank_char(
            #[trigger] s[i],
        ) by {
            if i < s.len() - 1 {
                assert(s.subrange(0, s.len() - 1)[i] == s[i]);
            }
        }
    } else {
    }
}

pub fn blank_char(c: char) -> (r: bool)
    ensures
        r == is_blank_char(c),
{
    c == ' ' || c == '\t'
}

pub fn digit_char(c: char) -> (r: bool)
    ensures
        r == is_digit_char(c),
{
    '0' <= c && c <= '9'
}

pub fn lower_char(c: char) -> (r: bool)
    ensures
        r == is_lower_char(c),
{
    'a' <= c && c <= 'z'
}

pub fn upper_char(c: char) -> (r: bool)
    ensures
        r == is_upper_char(c),
{
    'A' <= c && c <= 'Z'
}

pub fn alpha_char(c: char) -> (r: bool)
    ensures
        r == is_alpha_char(c),
{
    lower_char(c) || upper_char(c)
}

pub fn alnum_char(c: char) -> (r: bool)
    ensures
        r == is_alnum_char(c),
{
    alpha_char(c) || digit_char(c)
}

/// Reads the characters of `s` into a vector, in order.
pub fn str_to_chars(s: &str) -> (r: Vec<char>)
    ensures
        r@ == s@,
{
    let n = s.unicode_len();
    let mut v: Vec<char> = Vec::new();
    let mut i: usize = 0;
    while i < n
        invariant
            n == s@.len(),
            i <= n,
            v@ == s@.subrange(0, i as int),
        decreases n - i,
    {
        v.push(s.get_char(i));
        assert(v@ =~= s@.subrange(0, i + 1 as int));
        i += 1;
    }
    assert(v@ =~= s@);
    v
}

/// Whether two string slices hold the same characters.
pub fn str_eq(a: &str, b: &str) -> (r: bool)
    ensures
        r == (a@ == b@),
{
    let av = str_to_chars(a);
    let bv = str_to_chars(b);
    let n = av.len();
    if n != bv.len() {
        assert(a@ != b@);
        return false;
    }
    let mut k: usize = 0;
    while k < n
        invariant
            0 <= k <= n == av@.len(),
            n == bv@.len(),
            av@ == a@,
            bv@ == b@,
            forall|m: int| 0 <= m < k ==> av@[m] == bv@[m],
        decreases n - k,
    {
        if av[k] != bv[k] {
            assert(a@ != b@);
            return false;
        }
        k += 1;
    }
    assert(a@ =~= b@);
    true
}

/// Relies on `String`'s `FromIterator` over `char`: collecting an
/// iterator of characters yields the string of exactly those characters.
#[verifier::external_body]
pub fn chars_to_string(v: &Vec<char>) -> (r: String)
    ensures
        r@ == v@,
{
    v.iter().collect()
}

/// Copies `v[from..to]` into a fresh string.
pub fn slice_to_string(v: &Vec<char>, from: usize, to: usize) -> (r: String)
    requires
        from <= to <= v@.len(),
    ensures
        r@ == v@.subrange(from as int, to as int),
{
    let mut out: Vec<char> = Vec::new();
    let mut i: usize = from;
    while i < to
        invariant
            from <= i <= to <= v@.len(),
            out@ == v@.subrange(from as int, i as int),
        decreases to - i,
    {
        out.push(v[i]);
        assert(out@ =~= v@.subrange(from as int, i + 1 as int));
        i += 1;
    }
    chars_to_string(&out)
}

/// Copies `v[from..to]` into a fresh vector.
pub fn slice_vec(v: &Vec<char>, from: usize, to: usize) -> (r: Vec<char>)
    requires
        from <= to <= v@.len(),
    ensures
        r@ == v@.subrange(from as int, to as int),
{
    let mut out: Vec<char> = Vec::new();
    let mut i: usize = from;
    while i < to
        invariant
            from <= i <= to <= v@.len(),
            out@ == v@.subrange(from as int, i as int),
        decreases to - i,
    {
        out.push(v[i]);
        assert(out@ =~= v@.subrange(from as int, i + 1 as int));
        i += 1;
    }
    out
}

/// All of `s[i..i+n]` are decimal digits.
pub open spec fn digits_at(s: Seq<char>, i: int, n: int) -> bool {
    0 <= i && i + n <= s.len() && forall|k: int| i <= k < i + n ==> is_digit_char(
        #[trigger] s[k],
    )
}

/// The value of the decimal digits `s[i..i+n]`.
pub open spec fn digits_val(s: Seq<char>, i: int, n: int) -> int
    decreases n,
{
    if n <= 0 {
        0
    } else {
        digits_val(s, i, n - 1) * 10 + (s[i + n - 1] as u32 - 48) as int
    }
}

pub open spec fn pow10(n: int) -> int
    decreases n,
{
    if n <= 0 {
        1
    } else {
        10 * pow10(n - 1)
    }
}

pub proof fn lemma_digits_val_bound(s: Seq<char>, i: int, n: int)
    requires
        digits_at(s, i, n),
    ensures
        0 <= digits_val(s, i, n) < pow10(n),
    decreases n,
{
    if n > 0 {
        lemma_digits_val_bound(s, i, n - 1);
        assert(is_digit_char(s[i + n - 1]));
        assert((s[i + n - 1] as u32 - 48) as int <= 9);
    }
}

/// Reads the decimal number `v[i..i+n]`, for widths a `u32` always holds.
pub fn parse_digits(v: &Vec<char>, i: usize, n: usize) -> (r: u32)
    requires
        digits_at(v@, i as int, n as int),
        n <= 9,
    ensures
        r == digits_val(v@, i as int, n as int),
{
    let m = v.len();
    let mut r: u32 = 0;
    let mut k: usize = 0;
    while k < n
        invariant
            0 <= k <= n <= 9,
            digits_at(v@, i as int, n as int),
            m == v@.len(),
            i + n <= m,
            r == digits_val(v@, i as int, k as int),
        decreases n - k,
    {
        proof {
            lemma_digits_val_bound(v@, i as int, k as int);
            lemma_pow10_mono(k as int, 8);
            reveal_with_fuel(pow10, 10);
            assert(pow10(8) == 100000000);
            assert(r < 100000000);
            assert(is_digit_char(v@[i + k]));
        }
        let c = v[i + k];
        r = r * 10 + (c as u32 - 48);
        k += 1;
    }
    r
}

pub proof fn lemma_pow10_mono(a: int, b: int)
    requires
        0 <= a <= b,
    ensures
        pow10(a) <= pow10(b),
        pow10(a) >= 1,
    decreases b,
{
    if a < b {
        lemma_pow10_mono(a, b - 1);
    } else if b > 0 {
        lemma_pow10_mono(a - 1, b - 1);
    }
}

/// The least index of `c` in `s` at or after `from`, if any.
pub open spec fn find_from(s: Seq<char>, from: int, c: char) -> Option<int>
    decreases s.len() - from,
{
    if from < 0 || from >= s.len() {
        None
    } else if s[from] == c {
        Some(from)
    } else {
        find_from(s, from + 1, c)
    }
}

pub proof fn lemma_find_from(s: Seq<char>, from: int, c: char)
    requires
        0 <= from <= s.len(),
    ensures
        match find_from(s, from, c) {
            Some(j) => from <= j < s.len() && s[j] == c && forall|i: int|
                from <= i < j ==> s[i] != c,
            None => forall|i: int| from <= i < s.len() ==> s[i] != c,
        },
    decreases s.len() - from,
{
    if from < s.len() && s[from] != c {
        lemma_find_from(s, from + 1, c);
    }
}

/// Finds the least index of `c` in `v` at or after `from`.
pub fn find_char(v: &Vec<char>, from: usize, c: char) -> (r: Option<usize>)
    requires
        from <= v@.len(),
    ensures
        match r {
            Some(j) => find_from(v@, from as int, c) == Some(j as int) && from <= j < v@.len(),
            None => find_from(v@, from as int, c) is None,
        },
{
    let n = v.len();
    let mut i: usize = from;
    while i < n
        invariant
            from <= i <= n == v@.len(),
            find_from(v@, from as int, c) == find_from(v@, i as int, c),
        decreases n - i,
    {
        if v[i] == c {
            return Some(i);
        }
        i += 1;
    }
    None
}

/// The least index at or after `from` where `c1` is immediately followed
/// by `c2`.
pub open spec fn find_pair_from(s: Seq<char>, from: int, c1: char, c2: char) -> Option<int>
    decreases s.len() - from,
{
    if from < 0 || from + 1 >= s.len() {
        None
    } else if s[from] == c1 && s[from + 1] == c2 {
        Some(from)
    } else {
        find_pair_from(s, from + 1, c1, c2)
    }
}

pub proof fn lemma_find_pair_from(s: Seq<char>, from: int, c1: char, c2: char)
    requires
        0 <= from,
    ensures
        match find_pair_from(s, from, c1, c2) {
            Some(j) => from <= j && j + 1 < s.len() && s[j] == c1 && s[j + 1] == c2 && forall|
                i: int,
            |
                from <= i < j ==> !(#[trigger] s[i] == c1 && s[i + 1] == c2),
            None => forall|i: int| from <= i && i + 1 < s.len() ==> !(#[trigger] s[i] == c1
                && s[i + 1] == c2),
        },
    decreases s.len() - from,
{
    if from + 1 < s.len() && !(s[from] == c1 && s[from + 1] == c2) {
        lemma_find_pair_from(s, from + 1, c1, c2);
    }
}

/// Finds the least index at or after `from` where `c1` is immediately
/// followed by `c2`.
pub fn find_pair(v: &Vec<char>, from: usize, c1: char, c2: char) -> (r: Option<usize>)
    requires
        from <= v@.len(),
    ensures
        match r {
            Some(j) => find_pair_from(v@, from as int, c1, c2) == Some(j as int) && from <= j
                && j + 1 < v@.len(),
            None => find_pair_from(v@, from as int, c1, c2) is None,
        },
{
    let n = v.len();
    if n == 0 {
        return None;
    }
    let mut i: usize = from;
    while i < n - 1
        invariant
            from <= i,
            1 <= n,
            i <= n == v@.len(),
            find_pair_from(v@, from as int, c1, c2) == find_pair_from(v@, i as int, c1, c2),
        decreases n - i,
    {
        if v[i] == c1 && v[i + 1] == c2 {
            return Some(i);
        }
        i += 1;
    }
    None
}

} // verus!
