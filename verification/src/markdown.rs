//! Preparation of help texts for the terminal renderer.
//!
//! Help texts are written indented inside source code; before rendering,
//! the common leading whitespace of their lines is stripped. Lines are
//! split on newlines; indentation is counted in characters of ASCII
//! whitespace; lines of nothing but whitespace neither bound the common
//! indentation nor keep any content.

use vstd::prelude::*;

use crate::preparser::spec_is_space;

verus! {

/// Position of the first newline of `s`, or its length when none remains.
pub open spec fn first_nl(s: Seq<char>) -> int
    decreases s.len(),
{
    if s.len() == 0 {
        0
    } else if s[0] == '\n' {
        0
    } else {
        1 + first_nl(s.drop_first())
    }
}

/// Count of leading whitespace characters of one line.
pub open spec fn leading_ws(l: Seq<char>) -> int
    decreases l.len(),
{
    if l.len() == 0 {
        0
    } else if spec_is_space(l[0]) {
        1 + leading_ws(l.drop_first())
    } else {
        0
    }
}

proof fn lemma_first_nl_at(s: Seq<char>, i: int)
    requires
        0 <= i <= s.len(),
        forall|k: int| 0 <= k < i ==> s[k] != '\n',
        i < s.len() ==> s[i] == '\n',
    ensures
        first_nl(s) == i,
    decreases s.len(),
{
    if s.len() > 0 && i > 0 {
        let rest = s.drop_first();
        assert(forall|k: int| 0 <= k < i - 1 ==> rest[k] == s[k + 1]);
        lemma_first_nl_at(rest, i - 1);
    }
}

proof fn lemma_leading_ws_at(l: Seq<char>, i: int)
    requires
        0 <= i <= l.len(),
        forall|k: int| 0 <= k < i ==> spec_is_space(#[trigger] l[k]),
        i < l.len() ==> !spec_is_space(l[i]),
    ensures
        leading_ws(l) == i,
    decreases l.len(),
{
    if l.len() > 0 && i > 0 {
        let rest = l.drop_first();
        assert(forall|k: int| 0 <= k < i - 1 ==> rest[k] == l[k + 1]);
        lemma_leading_ws_at(rest, i - 1);
    }
}

/// The smallest indentation of any line with visible content, folded over
/// the remaining text; `acc` carries the smallest seen so far.
pub open spec fn min_indent_from(s: Seq<char>, acc: int) -> int
    decreases s.len(),
{
    if s.len() == 0 {
        acc
    } else {
        let i = first_nl(s);
        let l = s.take(i);
        let acc2 = if leading_ws(l) < l.len() && leading_ws(l) < acc {
            leading_ws(l)
        } else {
            acc
        };
        if 0 <= i < s.len() {
            min_indent_from(s.skip(i + 1), acc2)
        } else {
            acc2
        }
    }
}

/// Every line of the remaining text, stripped of `k` leading characters —
/// or left empty when it is no longer than `k` — and closed by a newline.
pub open spec fn dedent_from(s: Seq<char>, k: int) -> Seq<char>
    decreases s.len(),
{
    if s.len() == 0 {
        Seq::empty()
    } else {
        let i = first_nl(s);
        let l = s.take(i);
        let piece = (if l.len() > k {
            l.skip(k)
        } else {
            Seq::empty()
        }).push('\n');
        if 0 <= i < s.len() {
            piece + dedent_from(s.skip(i + 1), k)
        } else {
            piece
        }
    }
}

/// What preparation returns: the text unchanged when its lines share no
/// leading whitespace, else every line with the common indentation removed.
pub open spec fn spec_prepare_markdown(s: Seq<char>) -> Seq<char> {
    let m = min_indent_from(s, s.len() as int);
    if m == 0 {
        s
    } else {
        dedent_from(s, m)
    }
}

fn is_space(c: char) -> (r: bool)
    ensures
        r == spec_is_space(c),
{
    c == ' ' || c == '\t' || c == '\r' || c == '\n'
}

/// Finds the end of the line starting at `p`: the next newline, or the end.
fn scan_line_end(text: &str, p: usize, n: usize) -> (e: usize)
    requires
        n == text@.len(),
        p <= n,
    ensures
        p <= e <= n,
        first_nl(text@.skip(p as int)) == e - p,
        e < n ==> text@[e as int] == '\n',
{
    let mut e = p;
    while e < n
        invariant
            n == text@.len(),
            p <= e <= n,
            forall|k: int| p <= k < e ==> text@[k] != '\n',
        decreases n - e,
    {
        if text.get_char(e) == '\n' {
            proof {
                let rest = text@.skip(p as int);
                assert(forall|k: int| 0 <= k < e - p ==> rest[k] == text@[k + p]);
                lemma_first_nl_at(rest, e as int - p as int);
            }
            return e;
        }
        e += 1;
    }
    proof {
        let rest = text@.skip(p as int);
        assert(forall|k: int| 0 <= k < e - p ==> rest[k] == text@[k + p]);
        lemma_first_nl_at(rest, e as int - p as int);
    }
    e
}

/// Counts the leading whitespace of the line `[p, e)`.
fn scan_indent(text: &str, p: usize, e: usize, n: usize) -> (w: usize)
    requires
        n == text@.len(),
        p <= e <= n,
    ensures
        w <= e - p,
        leading_ws(text@.subrange(p as int, e as int)) == w,
{
    let mut q = p;
    while q < e
        invariant
            n == text@.len(),
            p <= q <= e <= n,
            forall|k: int| p <= k < q ==> spec_is_space(#[trigger] text@[k]),
        decreases e - q,
    {
        if !is_space(text.get_char(q)) {
            proof {
                let l = text@.subrange(p as int, e as int);
                assert(forall|k: int| 0 <= k < q - p ==> l[k] == text@[k + p]);
                assert(l[q as int - p as int] == text@[q as int]);
                lemma_leading_ws_at(l, q as int - p as int);
            }
            return q - p;
        }
        q += 1;
    }
    proof {
        let l = text@.subrange(p as int, e as int);
        assert(forall|k: int| 0 <= k < q - p ==> l[k] == text@[k + p]);
        lemma_leading_ws_at(l, q as int - p as int);
    }
    q - p
}

/// Strips the common leading whitespace of the text's lines, so that help
/// written indented in source renders flush left. A text whose lines share
/// no indentation comes back unchanged; otherwise every line loses the
/// common count, whitespace-only lines come back empty, and every line,
/// last included, is closed by a newline.
pub fn prepare_markdown(text: &str) -> (r: String)
    ensures
        r@ == spec_prepare_markdown(text@),
{
    let n = text.unicode_len();
    let mut min: usize = n;
    let mut p: usize = 0;
    let mut finished = n == 0;
    proof {
        assert(text@.skip(0) =~= text@);
    }
    while !finished
        invariant
            n == text@.len(),
            p <= n,
            min <= n,
            min_indent_from(text@, n as int) == (if finished {
                min as int
            } else {
                min_indent_from(text@.skip(p as int), min as int)
            }),
            finished || p < n || p == n,
        decreases n - p + (if finished {
            0int
        } else {
            1int
        }),
    {
        let e = scan_line_end(text, p, n);
        let w = scan_indent(text, p, e, n);
        proof {
            let s = text@.skip(p as int);
            assert(s.take(e as int - p as int) =~= text@.subrange(p as int, e as int));
            if e < n {
                assert(s.skip(e as int - p as int + 1) =~= text@.skip(e as int + 1));
            }
        }
        if w < e - p && w < min {
            min = w;
        }
        if e < n {
            p = e + 1;
        } else {
            finished = true;
            proof {
                assert(min_indent_from(text@, n as int) == min as int);
            }
        }
    }
    if min == 0 {
        return text.to_owned();
    }
    let mut out = String::new();
    let mut p2: usize = 0;
    let mut finished2 = n == 0;
    proof {
        reveal_strlit("\n");
        assert(text@.skip(0) =~= text@);
        if n == 0 {
            assert(out@ =~= dedent_from(text@, min as int));
        } else {
            assert(out@ + dedent_from(text@.skip(0), min as int) =~= dedent_from(
                text@,
                min as int,
            ));
        }
    }
    while !finished2
        invariant
            n == text@.len(),
            p2 <= n,
            min >= 1,
            finished2 ==> out@ == dedent_from(text@, min as int),
            !finished2 ==> dedent_from(text@, min as int) == out@ + dedent_from(
                text@.skip(p2 as int),
                min as int,
            ),
            !finished2 ==> p2 < n || n == 0,
            n > 0,
        decreases n - p2 + (if finished2 {
            0int
        } else {
            1int
        }),
    {
        let ghost p2_entry = p2 as int;
        let ghost out_entry = out@;
        let e = scan_line_end(text, p2, n);
        proof {
            reveal_strlit("\n");
            let s = text@.skip(p2_entry);
            assert(s.take(e as int - p2_entry) =~= text@.subrange(p2_entry, e as int));
            if e < n {
                assert(s.skip(e as int - p2_entry + 1) =~= text@.skip(e as int + 1));
            }
        }
        if e - p2 > min {
            let piece = text.substring_char(p2 + min, e);
            out.append(piece);
            proof {
                let s = text@.skip(p2_entry);
                let l = s.take(e as int - p2_entry);
                assert(l.skip(min as int) =~= text@.subrange(p2_entry + min as int, e as int));
            }
        }
        out.append("\n");
        proof {
            reveal_strlit("\n");
            let s = text@.skip(p2_entry);
            let l = s.take(e as int - p2_entry);
            let piece = (if l.len() > min as int {
                l.skip(min as int)
            } else {
                Seq::<char>::empty()
            }).push('\n');
            assert("\n"@ =~= seq!['\n']);
            if l.len() > min as int {
                assert(l.skip(min as int).push('\n') =~= l.skip(min as int) + seq!['\n']);
            } else {
                assert(piece =~= seq!['\n']);
            }
            assert(out@ =~= out_entry + piece);
        }
        if e < n {
            p2 = e + 1;
            proof {
                let s = text@.skip(p2_entry);
                let l = s.take(e as int - p2_entry);
                let piece = (if l.len() > min as int {
                    l.skip(min as int)
                } else {
                    Seq::<char>::empty()
                }).push('\n');
                assert(dedent_from(s, min as int) == piece + dedent_from(
                    text@.skip(p2 as int),
                    min as int,
                ));
            }
            if p2 == n {
                finished2 = true;
                proof {
                    assert(text@.skip(n as int) =~= Seq::<char>::empty());
                    assert(dedent_from(text@.skip(n as int), min as int) =~= Seq::<char>::empty());
                    assert(dedent_from(text@, min as int) =~= out@);
                }
            } else {
                proof {
                    assert(dedent_from(text@, min as int) =~= out@ + dedent_from(
                        text@.skip(p2 as int),
                        min as int,
                    ));
                }
            }
        } else {
            finished2 = true;
            proof {
                let s = text@.skip(p2_entry);
                let l = s.take(e as int - p2_entry);
                let piece = (if l.len() > min as int {
                    l.skip(min as int)
                } else {
                    Seq::<char>::empty()
                }).push('\n');
                assert(s.len() == e - p2_entry);
                assert(dedent_from(s, min as int) == piece);
                assert(dedent_from(text@, min as int) =~= out@);
            }
        }
    }
    out
}

} // verus!
