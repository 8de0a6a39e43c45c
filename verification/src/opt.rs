//! Option values the server-side front end decides on: the run mode and
//! the logging level. The parsing of command-line flags themselves lives
//! outside this crate; what arrives here are plain values.

use vstd::prelude::*;
use crate::chars::str_to_chars;

verus! {

/// How the surrounding program serves requests: over HTTP, or by
/// reading stdin and replying on stdout.
#[derive(Clone, Copy, Debug, PartialEq, Eq, Structural)]
pub enum Mode {
    Stdin,
    Http,
}

pub open spec fn stdin_chars() -> Seq<char> {
    seq!['s', 't', 'd', 'i', 'n']
}

pub open spec fn http_chars() -> Seq<char> {
    seq!['h', 't', 't', 'p']
}

/// The lowercase letter for an uppercase one; other characters keep
/// their value.
pub open spec fn lower_char_of(c: char) -> char {
    if 'A' <= c && c <= 'Z' {
        ((c as u32) + 32) as char
    } else {
        c
    }
}

pub open spec fn lowered(s: Seq<char>) -> Seq<char> {
    s.map_values(|c: char| lower_char_of(c))
}

/// Reads a mode name, case-insensitively: `stdin` or `http`.
pub fn mode_from_str(s: &str) -> (r: Option<Mode>)
    ensures
        r == Some(Mode::Stdin) <==> lowered(s@) == stdin_chars(),
        r == Some(Mode::Http) <==> lowered(s@) == http_chars(),
        r is None <==> lowered(s@) != stdin_chars() && lowered(s@) != http_chars(),
{
    let v = str_to_chars(s);
    let n = v.len();
    let mut low: Vec<char> = Vec::new();
    let mut k: usize = 0;
    while k < n
        invariant
            0 <= k <= n == v@.len(),
            low@ == lowered(v@.take(k as int)),
        decreases n - k,
    {
        let c = v[k];
        let lc = if 'A' <= c && c <= 'Z' {
            proof {
                assert('A' as u32 == 65 && 'Z' as u32 == 90);
            }
            char_from_u32(c as u32 + 32)
        } else {
            c
        };
        low.push(lc);
        assert(low@ =~= lowered(v@.take(k + 1)));
        k += 1;
    }
    assert(v@.take(n as int) =~= v@);
    let stdin_w = vec!['s', 't', 'd', 'i', 'n'];
    let http_w = vec!['h', 't', 't', 'p'];
    proof {
        assert(stdin_w@ =~= stdin_chars());
        assert(http_w@ =~= http_chars());
    }
    if eq_char_vecs(&low, &stdin_w) {
        Some(Mode::Stdin)
    } else if eq_char_vecs(&low, &http_w) {
        Some(Mode::Http)
    } else {
        None
    }
}

/// A character from its code point, for points known to be valid.
fn char_from_u32(u: u32) -> (r: char)
    requires
        97 <= u <= 122,
    ensures
        r as u32 == u,
{
    proof {
        assert(u < 256);
    }
    (u as u8) as char
}

fn eq_char_vecs(a: &Vec<char>, b: &Vec<char>) -> (r: bool)
    ensures
        r == (a@ == b@),
{
    let n = a.len();
    if n != b.len() {
        assert(a@ != b@);
        return false;
    }
    let mut k: usize = 0;
    while k < n
        invariant
            0 <= k <= n == a@.len(),
            n == b@.len(),
            forall|m: int| 0 <= m < k ==> a@[m] == b@[m],
        decreases n - k,
    {
        if a[k] != b[k] {
            assert(a@ != b@);
            return false;
        }
        k += 1;
    }
    assert(a@ =~= b@);
    true
}

/// How much the surrounding program logs.
#[derive(Clone, Copy, Debug, PartialEq, Eq, Structural)]
pub enum LogLevel {
    Error,
    Info,
    Debug,
    Trace,
}

/// The logging level for the given flags: quiet mode still shows
/// errors; otherwise each repetition of the verbose flag raises the
/// level, to a maximum of trace.
pub fn log_level(quiet: bool, verbose: u8) -> (r: LogLevel)
    ensures
        quiet ==> r == LogLevel::Error,
        !quiet && verbose == 0 ==> r == LogLevel::Info,
        !quiet && verbose == 1 ==> r == LogLevel::Debug,
        !quiet && verbose >= 2 ==> r == LogLevel::Trace,
{
    if quiet {
        LogLevel::Error
    } else if verbose == 0 {
        LogLevel::Info
    } else if verbose == 1 {
        LogLevel::Debug
    } else {
        LogLevel::Trace
    }
}

} // verus!
