//! Statement-boundary preparser for schema source text.
//!
//! A schema file is a sequence of top-level statements, each terminated by a
//! semicolon. Semicolons inside strings, line comments or brace-nested blocks
//! do not count as boundaries. A chunk is *complete* when only whitespace and
//! comments follow its last top-level semicolon.

use vstd::prelude::*;

verus! {

/// Lexical mode of the scanner.
#[derive(PartialEq, Eq, Structural, Clone, Copy, Debug)]
pub enum ScanMode {
    /// Top-level code, between strings and comments.
    Normal,
    /// Inside a `#` line comment, until the next newline.
    Comment,
    /// Inside a single-quoted string.
    Single,
    /// Inside a single-quoted string, right after a backslash.
    SingleEscape,
    /// Inside a double-quoted string.
    Double,
    /// Inside a double-quoted string, right after a backslash.
    DoubleEscape,
}

/// Whitespace as the scanner counts it.
pub open spec fn spec_is_space(c: char) -> bool {
    c == ' ' || c == '\t' || c == '\r' || c == '\n'
}

/// Scanner state: lexical mode, brace depth, and whether only whitespace and
/// comments have been seen since the last top-level semicolon.
pub open spec fn scan_step(st: (ScanMode, int, bool), c: char) -> (ScanMode, int, bool) {
    let (mode, depth, blank) = st;
    match mode {
        ScanMode::Comment => if c == '\n' {
            (ScanMode::Normal, depth, blank)
        } else {
            st
        },
        ScanMode::Single => if c == '\\' {
            (ScanMode::SingleEscape, depth, blank)
        } else if c == '\'' {
            (ScanMode::Normal, depth, blank)
        } else {
            st
        },
        ScanMode::SingleEscape => (ScanMode::Single, depth, blank),
        ScanMode::Double => if c == '\\' {
            (ScanMode::DoubleEscape, depth, blank)
        } else if c == '"' {
            (ScanMode::Normal, depth, blank)
        } else {
            st
        },
        ScanMode::DoubleEscape => (ScanMode::Double, depth, blank),
        ScanMode::Normal => if c == '#' {
            (ScanMode::Comment, depth, blank)
        } else if c == '\'' {
            (ScanMode::Single, depth, false)
        } else if c == '"' {
            (ScanMode::Double, depth, false)
        } else if c == '{' {
            (ScanMode::Normal, depth + 1, false)
        } else if c == '}' {
            (ScanMode::Normal, if depth > 0 { depth - 1 } else { 0 }, false)
        } else if c == ';' {
            (ScanMode::Normal, depth, depth == 0)
        } else if spec_is_space(c) {
            st
        } else {
            (ScanMode::Normal, depth, false)
        },
    }
}

/// The scanner state after reading all of `s`, starting at top level.
pub open spec fn scan(s: Seq<char>) -> (ScanMode, int, bool)
    decreases s.len(),
{
    if s.len() == 0 {
        (ScanMode::Normal, 0, true)
    } else {
        scan_step(scan(s.drop_last()), s.last())
    }
}

/// A chunk is complete when, after consuming all complete top-level
/// statements, only whitespace and comments remain.
pub open spec fn chunk_complete(s: Seq<char>) -> bool {
    scan(s).2
}

fn is_space(c: char) -> (r: bool)
    ensures
        r == spec_is_space(c),
{
    c == ' ' || c == '\t' || c == '\r' || c == '\n'
}

fn step(mode: ScanMode, depth: usize, blank: bool, c: char) -> (r: (ScanMode, usize, bool))
    requires
        depth < usize::MAX,
    ensures
        (r.0, r.1 as int, r.2) == scan_step((mode, depth as int, blank), c),
        r.1 <= depth + 1,
{
    match mode {
        ScanMode::Comment => if c == '\n' {
            (ScanMode::Normal, depth, blank)
        } else {
            (mode, depth, blank)
        },
        ScanMode::Single => if c == '\\' {
            (ScanMode::SingleEscape, depth, blank)
        } else if c == '\'' {
            (ScanMode::Normal, depth, blank)
        } else {
            (mode, depth, blank)
        },
        ScanMode::SingleEscape => (ScanMode::Single, depth, blank),
        ScanMode::Double => if c == '\\' {
            (ScanMode::DoubleEscape, depth, blank)
        } else if c == '"' {
            (ScanMode::Normal, depth, blank)
        } else {
            (mode, depth, blank)
        },
        ScanMode::DoubleEscape => (ScanMode::Double, depth, blank),
        ScanMode::Normal => if c == '#' {
            (ScanMode::Comment, depth, blank)
        } else if c == '\'' {
            (ScanMode::Single, depth, false)
        } else if c == '"' {
            (ScanMode::Double, depth, false)
        } else if c == '{' {
            (ScanMode::Normal, depth + 1, false)
        } else if c == '}' {
            (ScanMode::Normal, if depth > 0 { depth - 1 } else { 0 }, false)
        } else if c == ';' {
            (ScanMode::Normal, depth, depth == 0)
        } else if is_space(c) {
            (mode, depth, blank)
        } else {
            (ScanMode::Normal, depth, false)
        },
    }
}

/// Decides whether `text` ends in a complete, semicolon-terminated statement
/// (followed at most by whitespace and comments).
pub fn check_chunk_complete(text: &str) -> (r: bool)
    ensures
        r == chunk_complete(text@),
{
    let n = text.unicode_len();
    let mut mode = ScanMode::Normal;
    let mut depth: usize = 0;
    let mut blank = true;
    let mut i: usize = 0;
    while i < n
        invariant
            n == text@.len(),
            i <= n,
            depth <= i,
            (mode, depth as int, blank) == scan(text@.take(i as int)),
        decreases n - i,
    {
        let c = text.get_char(i);
        let next = step(mode, depth, blank, c);
        proof {
            assert(text@.take(i as int + 1).drop_last() =~= text@.take(i as int));
            assert(text@.take(i as int + 1).last() == c);
        }
        mode = next.0;
        depth = next.1;
        blank = next.2;
        i += 1;
    }
    proof {
        assert(text@.take(n as int) =~= text@);
    }
    blank
}

} // verus!
