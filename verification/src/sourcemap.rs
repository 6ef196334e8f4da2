//! Source map: an append-only recorder that concatenates labeled text chunks
//! and remembers, for every output line, which chunk and original line it
//! came from. Pure concatenation: no line is reordered or altered; its only
//! job is making later error messages point at the right file and line.

use vstd::prelude::*;

verus! {

/// Label of one appended chunk.
pub enum SourceName {
    /// The synthetic opening line of the aggregated block.
    Prefix,
    /// The synthetic closing line of the aggregated block.
    Suffix,
    /// A schema file, by path.
    File(String),
}

/// One chunk of the map: `line_count` output lines starting at output line
/// `start_line` (1-based) came from `source`, original lines 1 through
/// `line_count`.
pub struct SourceEntry {
    pub source: SourceName,
    pub start_line: usize,
    pub line_count: usize,
}

/// Read-only map from output line numbers back to sources.
pub struct SourceMap {
    pub entries: Vec<SourceEntry>,
}

/// Number of `'\n'` characters in `s`.
pub open spec fn newline_count(s: Seq<char>) -> int
    decreases s.len(),
{
    if s.len() == 0 {
        0
    } else {
        newline_count(s.drop_last()) + if s.last() == '\n' {
            1int
        } else {
            0int
        }
    }
}

/// Number of lines of `s`, counted as `str::lines` does over `'\n'`
/// boundaries: a trailing newline opens no further line.
pub open spec fn line_count(s: Seq<char>) -> int {
    if s.len() == 0 {
        0
    } else if s.last() == '\n' {
        newline_count(s)
    } else {
        newline_count(s) + 1
    }
}

/// `s` with a newline appended when it does not already end in one.
pub open spec fn terminated(s: Seq<char>) -> Seq<char> {
    if s.len() == 0 || s.last() == '\n' {
        s
    } else {
        s.push('\n')
    }
}

pub proof fn lemma_newline_count_add(a: Seq<char>, b: Seq<char>)
    ensures
        newline_count(a + b) == newline_count(a) + newline_count(b),
    decreases b.len(),
{
    if b.len() == 0 {
        assert(a + b =~= a);
    } else {
        lemma_newline_count_add(a, b.drop_last());
        assert((a + b).drop_last() =~= a + b.drop_last());
    }
}

pub proof fn lemma_newline_count_bound(s: Seq<char>)
    ensures
        0 <= newline_count(s) <= s.len(),
        s.len() > 0 && s.last() != '\n' ==> newline_count(s) <= s.len() - 1,
    decreases s.len(),
{
    if s.len() > 0 {
        lemma_newline_count_bound(s.drop_last());
    }
}

/// Terminating a chunk changes no line count.
pub proof fn lemma_line_count_terminated(s: Seq<char>)
    ensures
        line_count(terminated(s)) == line_count(s),
        0 <= line_count(s) <= s.len(),
        terminated(s).len() == 0 || terminated(s).last() == '\n',
{
    lemma_newline_count_bound(s);
    if s.len() > 0 && s.last() != '\n' {
        assert(s.push('\n').drop_last() =~= s);
    }
}

/// Appending a newline-terminated chunk adds its lines.
pub proof fn lemma_line_count_append(a: Seq<char>, b: Seq<char>)
    requires
        a.len() == 0 || a.last() == '\n',
        b.len() == 0 || b.last() == '\n',
    ensures
        line_count(a + b) == line_count(a) + line_count(b),
        (a + b).len() == 0 || (a + b).last() == '\n',
{
    lemma_newline_count_add(a, b);
    if b.len() == 0 {
        assert(a + b =~= a);
    } else {
        assert((a + b).last() == b.last());
    }
}

impl SourceMap {
    /// The entry covering `line`, as a map index and the original line number
    /// inside that entry's source; `None` when no entry covers it.
    pub open spec fn spec_translate(entries: Seq<SourceEntry>, line: int) -> Option<(int, int)>
        decreases entries.len(),
    {
        if entries.len() == 0 {
            None
        } else {
            let e = entries.first();
            if e.start_line <= line < e.start_line + e.line_count {
                Some((0, line - e.start_line + 1))
            } else {
                match Self::spec_translate(entries.drop_first(), line) {
                    Some((k, orig)) => Some((k + 1, orig)),
                    None => None,
                }
            }
        }
    }

    /// Maps an output line number (1-based) back to its source: the entry and
    /// the 1-based line number within the original chunk.
    pub fn translate(&self, line: usize) -> (r: Option<(&SourceName, usize)>)
        ensures
            match r {
                Some((_, orig)) => {
                    &&& Self::spec_translate(self.entries@, line as int) matches Some((k, o))
                    &&& o == orig
                    &&& 0 <= k < self.entries@.len()
                    &&& *(r->Some_0.0) == self.entries@[k].source
                },
                None => Self::spec_translate(self.entries@, line as int) is None,
            },
    {
        let n = self.entries.len();
        let mut i: usize = 0;
        proof {
            assert(self.entries@.skip(0) =~= self.entries@);
        }
        while i < n
            invariant
                n == self.entries@.len(),
                i <= n,
                Self::spec_translate(self.entries@.skip(i as int), line as int) matches Some((
                    k,
                    o,
                )) ==> Self::spec_translate(self.entries@, line as int) == Some::<(int, int)>(
                    (k + i, o),
                ),
                Self::spec_translate(self.entries@.skip(i as int), line as int) is None
                    ==> Self::spec_translate(self.entries@, line as int) is None,
            decreases n - i,
        {
            let e = &self.entries[i];
            proof {
                assert(self.entries@.skip(i as int).first() == self.entries@[i as int]);
                assert(self.entries@.skip(i as int).drop_first() =~= self.entries@.skip(
                    i as int + 1,
                ));
            }
            if e.start_line <= line && line - e.start_line < e.line_count {
                let orig = line - e.start_line + 1;
                return Some((&self.entries[i].source, orig));
            }
            i += 1;
        }
        proof {
            assert(self.entries@.skip(n as int) =~= Seq::<SourceEntry>::empty());
        }
        None
    }
}

/// Law: when the entries tile the output lines contiguously — as every map
/// built here does — each line of the covered range resolves to exactly one
/// entry: the resolver is a total function there.
pub proof fn lemma_translate_total(entries: Seq<SourceEntry>, line: int)
    requires
        entries.len() > 0,
        entries[0].start_line <= line,
        line < entries.last().start_line + entries.last().line_count,
        forall|j: int|
            0 <= j && j + 1 < entries.len() ==> (#[trigger] entries[j + 1].start_line)
                == entries[j].start_line + entries[j].line_count,
    ensures
        SourceMap::spec_translate(entries, line) is Some,
    decreases entries.len(),
{
    let e = entries.first();
    if e.start_line <= line < e.start_line + e.line_count {
    } else {
        let rest = entries.drop_first();
        assert(forall|j: int| 0 <= j < rest.len() ==> rest[j] == entries[j + 1]);
        assert(entries[1].start_line == e.start_line + e.line_count);
        assert(rest[0].start_line <= line);
        assert(rest.last() == entries.last());
        lemma_translate_total(rest, line);
    }
}

/// Append-only builder of the aggregated text and its source map.
pub struct Builder {
    pub text: String,
    pub entries: Vec<SourceEntry>,
    pub next_line: usize,
}

impl Builder {
    /// The builder's bookkeeping is consistent: the text is newline
    /// terminated, the entries tile the output lines contiguously from line
    /// 1, and `next_line` is the first free output line.
    pub open spec fn wf(self) -> bool {
        &&& self.text@.len() == 0 || self.text@.last() == '\n'
        &&& self.next_line == 1 + line_count(self.text@)
        &&& self.entries@.len() > 0 ==> self.entries@[0].start_line == 1
        &&& forall|j: int|
            0 <= j && j + 1 < self.entries@.len() ==> #[trigger] self.entries@[j + 1].start_line
                == self.entries@[j].start_line + self.entries@[j].line_count
        &&& self.entries@.len() == 0 ==> self.next_line == 1
        &&& self.entries@.len() > 0 ==> self.next_line == self.entries@.last().start_line
            + self.entries@.last().line_count
    }

    pub fn new() -> (r: Builder)
        ensures
            r.wf(),
            r.text@ =~= Seq::<char>::empty(),
            r.entries@ =~= Seq::<SourceEntry>::empty(),
            r.next_line == 1,
    {
        Builder { text: String::new(), entries: Vec::new(), next_line: 1 }
    }

    /// Counts the lines of `text` the way the output will hold them.
    pub fn count_lines(text: &str) -> (r: usize)
        ensures
            r == line_count(text@),
    {
        let n = text.unicode_len();
        let mut newlines: usize = 0;
        let mut i: usize = 0;
        while i < n
            invariant
                n == text@.len(),
                i <= n,
                newlines == newline_count(text@.take(i as int)),
                newlines <= i,
            decreases n - i,
        {
            let c = text.get_char(i);
            proof {
                assert(text@.take(i as int + 1).drop_last() =~= text@.take(i as int));
                lemma_newline_count_bound(text@.take(i as int + 1));
            }
            if c == '\n' {
                newlines += 1;
            }
            i += 1;
        }
        proof {
            assert(text@.take(n as int) =~= text@);
        }
        if n == 0 {
            0
        } else {
            let last = text.get_char(n - 1);
            proof {
                assert(text@.last() == text@[n as int - 1]);
                lemma_newline_count_bound(text@);
            }
            if last == '\n' {
                newlines
            } else {
                newlines + 1
            }
        }
    }

    /// Appends `text` under `source`: every line of `text`, blank lines
    /// included, takes exactly one output line, and the map records where
    /// those lines start.
    pub fn add_lines(&mut self, source: SourceName, text: &str)
        requires
            old(self).wf(),
            old(self).next_line + line_count(text@) <= usize::MAX,
        ensures
            final(self).wf(),
            final(self).text@ == old(self).text@ + terminated(text@),
            final(self).entries@ == old(self).entries@.push(
                SourceEntry {
                    source,
                    start_line: old(self).next_line,
                    line_count: line_count(text@) as usize,
                },
            ),
            final(self).next_line == old(self).next_line + line_count(text@),
    {
        proof {
            lemma_line_count_terminated(text@);
        }
        let cnt = Self::count_lines(text);
        let start = self.next_line;
        self.text.append(text);
        let needs_newline = if text.is_empty() {
            false
        } else {
            let n = text.unicode_len();
            let last = text.get_char(n - 1);
            proof {
                assert(text@.last() == text@[text@.len() - 1]);
            }
            last != '\n'
        };
        if needs_newline {
            self.text.append("\n");
            proof {
                reveal_strlit("\n");
                assert(old(self).text@ + text@ + "\n"@ =~= old(self).text@ + terminated(text@));
            }
        } else {
            proof {
                assert(old(self).text@ + text@ =~= old(self).text@ + terminated(text@));
            }
        }
        self.entries.push(SourceEntry { source, start_line: start, line_count: cnt });
        self.next_line = start + cnt;
        proof {
            lemma_line_count_append(old(self).text@, terminated(text@));
            let prev = old(self).entries@;
            let cur = self.entries@;
            assert forall|j: int|
                0 <= j && j + 1 < cur.len() implies #[trigger] cur[j + 1].start_line
                == cur[j].start_line + cur[j].line_count by {
                if j + 1 < cur.len() - 1 {
                    assert(cur[j + 1] == prev[j + 1]);
                    assert(cur[j] == prev[j]);
                } else {
                    assert(cur[j] == prev[prev.len() - 1]);
                }
            };
        }
    }

    /// Finishes the build, handing out the aggregated text and the map.
    pub fn done(self) -> (r: (String, SourceMap))
        ensures
            r.0 == self.text,
            r.1.entries == self.entries,
    {
        (self.text, SourceMap { entries: self.entries })
    }
}

} // verus!
