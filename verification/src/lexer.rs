//! Splitting raw input into lines.
//!
//! A line ends with `\n` or `\r\n`, or at the end of the input. A carriage
//! return that is not followed by `\n` belongs to no line terminator and to
//! no line content: the line it sits on cannot be consumed by any rule, and
//! lexing reports that line as the first unconsumed input.

use vstd::prelude::*;

verus! {

/// The characters that end a line.
pub open spec fn is_break_char(c: char) -> bool {
    c == '\n' || c == '\r'
}

/// The least index at or after `from` holding a line break character, or
/// the length of `s` when there is none.
pub open spec fn break_at(s: Seq<char>, from: int) -> int
    decreases s.len() - from,
{
    if from < 0 || from >= s.len() {
        s.len() as int
    } else if is_break_char(s[from]) {
        from
    } else {
        break_at(s, from + 1)
    }
}

pub proof fn lemma_break_at(s: Seq<char>, from: int)
    requires
        0 <= from <= s.len(),
    ensures
        from <= break_at(s, from) <= s.len(),
        break_at(s, from) < s.len() ==> is_break_char(s[break_at(s, from)]),
        forall|i: int| from <= i < break_at(s, from) ==> !is_break_char(#[trigger] s[i]),
    decreases s.len() - from,
{
    if from < s.len() && !is_break_char(s[from]) {
        lemma_break_at(s, from + 1);
    }
}

/// The lines of `s` starting at `from`, or, on a stray carriage return,
/// the count of lines completed before the offending line.
pub open spec fn spec_lex_from(s: Seq<char>, from: int) -> Result<Seq<Seq<char>>, nat>
    decreases s.len() - from,
        via spec_lex_from_decreases
{
    if from < 0 || from >= s.len() {
        Ok(Seq::empty())
    } else {
        let k = break_at(s, from);
        let line = s.subrange(from, k);
        if k == s.len() {
            Ok(seq![line])
        } else if s[k] == '\n' {
            match spec_lex_from(s, k + 1) {
                Ok(ls) => Ok(seq![line] + ls),
                Err(e) => Err((e + 1) as nat),
            }
        } else if k + 1 < s.len() && s[k + 1] == '\n' {
            match spec_lex_from(s, k + 2) {
                Ok(ls) => Ok(seq![line] + ls),
                Err(e) => Err((e + 1) as nat),
            }
        } else {
            Err(0)
        }
    }
}

#[via_fn]
proof fn spec_lex_from_decreases(s: Seq<char>, from: int) {
    if 0 <= from < s.len() {
        lemma_break_at(s, from);
    }
}

/// The lines of the whole input.
pub open spec fn spec_lex(s: Seq<char>) -> Result<Seq<Seq<char>>, nat> {
    spec_lex_from(s, 0)
}

/// The views of a sequence of character vectors.
pub open spec fn views(ls: Seq<Vec<char>>) -> Seq<Seq<char>> {
    ls.map_values(|v: Vec<char>| v@)
}

/// Every line of a lexed document is no longer than the document.
pub proof fn lemma_lex_from_line_lengths(s: Seq<char>, from: int, j: int)
    requires
        0 <= from <= s.len(),
        spec_lex_from(s, from) is Ok,
        0 <= j < spec_lex_from(s, from)->Ok_0.len(),
    ensures
        spec_lex_from(s, from)->Ok_0[j].len() <= s.len(),
    decreases s.len() - from,
{
    if from < s.len() {
        let k = break_at(s, from);
        lemma_break_at(s, from);
        if k < s.len() {
            if s[k] == '\n' {
                if j > 0 {
                    lemma_lex_from_line_lengths(s, k + 1, j - 1);
                }
            } else if k + 1 < s.len() && s[k + 1] == '\n' {
                if j > 0 {
                    lemma_lex_from_line_lengths(s, k + 2, j - 1);
                }
            }
        }
    }
}

pub proof fn lemma_lex_line_lengths(s: Seq<char>, j: int)
    requires
        spec_lex(s) is Ok,
        0 <= j < spec_lex(s)->Ok_0.len(),
    ensures
        spec_lex(s)->Ok_0[j].len() <= s.len(),
{
    lemma_lex_from_line_lengths(s, 0, j);
}

/// Splits `text` into lines. On a stray carriage return the error holds
/// the 0-based number of the line that could not be consumed.
pub fn lex(text: &Vec<char>) -> (r: Result<Vec<Vec<char>>, usize>)
    ensures
        match r {
            Ok(lines) => spec_lex(text@) == Ok::<_, nat>(views(lines@)),
            Err(e) => spec_lex(text@) == Err::<Seq<Seq<char>>, nat>(e as nat) && e
                < text@.len(),
        },
{
    let n = text.len();
    let mut lines: Vec<Vec<char>> = Vec::new();
    let mut pos: usize = 0;
    while pos < n
        invariant
            pos <= n == text@.len(),
            lines@.len() <= pos,
            match spec_lex_from(text@, pos as int) {
                Ok(rest) => spec_lex(text@) == Ok::<_, nat>(views(lines@) + rest),
                Err(e) => spec_lex(text@) == Err::<Seq<Seq<char>>, nat>(
                    (views(lines@).len() + e) as nat,
                ),
            },
        decreases n - pos,
    {
        let ghost prev = lines@;
        // scan to the next break character
        let mut k: usize = pos;
        while k < n && !(text[k] == '\n' || text[k] == '\r')
            invariant
                pos <= k <= n == text@.len(),
                break_at(text@, pos as int) == break_at(text@, k as int),
            decreases n - k,
        {
            k += 1;
        }
        assert(break_at(text@, pos as int) == k as int);
        let mut line: Vec<char> = Vec::new();
        let mut i: usize = pos;
        while i < k
            invariant
                pos <= i <= k <= n == text@.len(),
                line@ == text@.subrange(pos as int, i as int),
            decreases k - i,
        {
            line.push(text[i]);
            assert(line@ =~= text@.subrange(pos as int, i + 1 as int));
            i += 1;
        }
        if k == n {
            lines.push(line);
            assert(views(lines@) =~= views(prev).push(text@.subrange(pos as int, k as int)));
            assert(views(prev) + spec_lex_from(text@, pos as int)->Ok_0 =~= views(lines@));
            pos = n;
        } else if text[k] == '\n' {
            lines.push(line);
            proof {
                assert(views(lines@) =~= views(prev).push(
                    text@.subrange(pos as int, k as int),
                ));
                if spec_lex_from(text@, k + 1) is Ok {
                    assert(views(prev) + spec_lex_from(text@, pos as int)->Ok_0 =~= views(
                        lines@,
                    ) + spec_lex_from(text@, k + 1)->Ok_0);
                }
            }
            pos = k + 1;
        } else if k + 1 < n && text[k + 1] == '\n' {
            lines.push(line);
            proof {
                assert(views(lines@) =~= views(prev).push(
                    text@.subrange(pos as int, k as int),
                ));
                if spec_lex_from(text@, k + 2) is Ok {
                    assert(views(prev) + spec_lex_from(text@, pos as int)->Ok_0 =~= views(
                        lines@,
                    ) + spec_lex_from(text@, k + 2)->Ok_0);
                }
            }
            pos = k + 2;
        } else {
            // a carriage return with no newline after it
            return Err(lines.len());
        }
    }
    assert(spec_lex_from(text@, pos as int) == Ok::<_, nat>(Seq::<Seq<char>>::empty()));
    assert(views(lines@) + Seq::<Seq<char>>::empty() =~= views(lines@));
    Ok(lines)
}

} // verus!
