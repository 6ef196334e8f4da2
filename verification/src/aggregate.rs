//! Schema aggregation: validates that every schema file ends in a complete,
//! semicolon-terminated statement and concatenates the files, wrapped in a
//! single "start migration to this target schema" block, producing the
//! aggregated text together with a source map for later diagnostics.
//!
//! Reading the schema directory is the caller's concern: the aggregator takes
//! the files as `(path, content)` pairs, in the order the caller fixed (the
//! caller should sort paths so the output is reproducible across platforms).

use vstd::prelude::*;

use crate::errors::Error;
use crate::preparser::chunk_complete;
use crate::preparser::check_chunk_complete;
use crate::sourcemap::Builder;
use crate::sourcemap::SourceMap;
use crate::sourcemap::SourceName;
use crate::sourcemap::line_count;
use crate::sourcemap::terminated;
use crate::sourcemap::lemma_line_count_terminated;

verus! {

/// The concatenation of the files' contents, each newline-terminated.
pub open spec fn chunks_text(files: Seq<(String, String)>) -> Seq<char>
    decreases files.len(),
{
    if files.len() == 0 {
        Seq::empty()
    } else {
        chunks_text(files.drop_last()) + terminated(files.last().1@)
    }
}

/// The full aggregated text: prefix line, file chunks, suffix line.
pub open spec fn agg_text(files: Seq<(String, String)>) -> Seq<char> {
    terminated("START MIGRATION TO {"@) + chunks_text(files) + terminated("};"@)
}

/// Total line count of the files' contents.
pub open spec fn total_lines(files: Seq<(String, String)>) -> int
    decreases files.len(),
{
    if files.len() == 0 {
        0
    } else {
        total_lines(files.drop_last()) + line_count(files.last().1@)
    }
}

/// Keeps only names of visible, schema-suffixed files: the name must not
/// start with the hidden-file marker and must end in `.esdl`.
pub open spec fn spec_is_schema_file_name(name: Seq<char>) -> bool {
    &&& name.len() >= 5
    &&& name[0] != '.'
    &&& name.subrange(name.len() - 5, name.len() as int) == ".esdl"@
}

/// Decides whether a directory entry's file name names a schema file.
pub fn is_schema_file_name(name: &str) -> (r: bool)
    ensures
        r == spec_is_schema_file_name(name@),
{
    let n = name.unicode_len();
    if n < 5 {
        return false;
    }
    if name.get_char(0) == '.' {
        return false;
    }
    let suffix = name.substring_char(n - 5, n);
    proof {
        reveal_strlit(".esdl");
    }
    let m = suffix.unicode_len();
    let ok = m == 5 && suffix.get_char(0) == '.' && suffix.get_char(1) == 'e' && suffix.get_char(2)
        == 's' && suffix.get_char(3) == 'd' && suffix.get_char(4) == 'l';
    proof {
        if ok {
            assert(suffix@ =~= ".esdl"@);
        } else {
            assert(suffix@ != ".esdl"@);
        }
    }
    ok
}

/// Aggregates schema files into one candidate schema body with a source map.
///
/// Every file must end in a complete, semicolon-terminated statement followed
/// at most by whitespace and comments; otherwise aggregation fails with a
/// validation error naming the first offending file. On success the
/// aggregated text holds exactly one synthetic prefix line, every line of
/// every file, and one synthetic suffix line, and the source map ties each
/// output line back to its file and original line.
pub fn aggregate(files: &Vec<(String, String)>) -> (r: Result<(String, SourceMap), Error>)
    requires
        3 + total_lines(files@) <= usize::MAX,
    ensures
        r is Ok <==> (forall|i: int|
            0 <= i < files@.len() ==> chunk_complete(#[trigger] files@[i].1@)),
        r matches Ok(out) ==> {
            &&& out.0@ == agg_text(files@)
            &&& line_count(out.0@) == 2 + total_lines(files@)
            &&& out.1.entries@.len() == files@.len() + 2
            &&& out.1.entries@[0].source is Prefix
            &&& out.1.entries@[0].start_line == 1
            &&& out.1.entries@[0].line_count == 1
            &&& out.1.entries@.last().source is Suffix
            &&& out.1.entries@.last().line_count == 1
            &&& forall|i: int|
                0 <= i < files@.len() ==> ((#[trigger] out.1.entries@[i + 1].source) matches
                    SourceName::File(p) && p@ == files@[i].0@)
            &&& forall|i: int|
                0 <= i < files@.len() ==> (#[trigger] out.1.entries@[i + 1].line_count)
                    == line_count(files@[i].1@)
            &&& forall|j: int|
                0 <= j && j + 1 < out.1.entries@.len() ==> (#[trigger] out.1.entries@[j
                    + 1].start_line) == out.1.entries@[j].start_line + out.1.entries@[j].line_count
        },
        r matches Err(e) ==> {
            &&& e matches Error::IncompleteSchema { path }
            &&& exists|i: int|
                0 <= i < files@.len() && !chunk_complete(#[trigger] files@[i].1@) && path@
                    == files@[i].0@ && (forall|j: int|
                    0 <= j < i ==> chunk_complete(#[trigger] files@[j].1@))
        },
{
    let ghost all = files@;
    let mut bld = Builder::new();
    proof {
        reveal_strlit("START MIGRATION TO {");
        lemma_literal_line_count("START MIGRATION TO {"@);
        lemma_total_lines_bounds(all, all.len() as int);
        assert(all.take(0) =~= Seq::<(String, String)>::empty());
    }
    bld.add_lines(SourceName::Prefix, "START MIGRATION TO {");
    let n = files.len();
    let mut i: usize = 0;
    while i < n
        invariant
            all == files@,
            n == all.len(),
            i <= n,
            3 + total_lines(all) <= usize::MAX,
            bld.wf(),
            bld.text@ == terminated("START MIGRATION TO {"@) + chunks_text(all.take(i as int)),
            bld.next_line == 2 + total_lines(all.take(i as int)),
            bld.entries@.len() == i + 1,
            bld.entries@[0].source is Prefix,
            bld.entries@[0].start_line == 1,
            bld.entries@[0].line_count == 1,
            forall|k: int|
                0 <= k < i ==> ((#[trigger] bld.entries@[k + 1].source) matches SourceName::File(
                    p,
                ) && p@ == all[k].0@),
            forall|k: int|
                0 <= k < i ==> (#[trigger] bld.entries@[k + 1].line_count) == line_count(
                    all[k].1@,
                ),
            forall|k: int| 0 <= k < i ==> chunk_complete(#[trigger] all[k].1@),
        decreases n - i,
    {
        let complete = check_chunk_complete(files[i].1.as_str());
        if !complete {
            let path = files[i].0.clone();
            proof {
                assert(!chunk_complete(all[i as int].1@));
            }
            return Err(Error::IncompleteSchema { path });
        }
        proof {
            lemma_total_lines_step(all, i as int);
            lemma_total_lines_bounds(all, i as int + 1);
            lemma_line_count_terminated(all[i as int].1@);
        }
        let name = files[i].0.clone();
        bld.add_lines(SourceName::File(name), files[i].1.as_str());
        proof {
            assert(all.take(i as int + 1).drop_last() =~= all.take(i as int));
            assert(all.take(i as int + 1).last() == all[i as int]);
        }
        i += 1;
    }
    proof {
        assert(all.take(n as int) =~= all);
        reveal_strlit("};");
        lemma_literal_line_count("};"@);
    }
    bld.add_lines(SourceName::Suffix, "};");
    let ghost before_done = bld;
    let out = bld.done();
    proof {
        assert(out.0@ == terminated("START MIGRATION TO {"@) + chunks_text(all) + terminated(
            "};"@,
        ));
        crate::sourcemap::lemma_line_count_append(
            terminated("START MIGRATION TO {"@) + chunks_text(all),
            terminated("};"@),
        );
        lemma_chunks_text_lines(all);
        crate::sourcemap::lemma_line_count_append(
            terminated("START MIGRATION TO {"@),
            chunks_text(all),
        );
    }
    Ok(out)
}

/// A nonempty text without newlines counts as a single line.
proof fn lemma_literal_line_count(s: Seq<char>)
    requires
        s.len() > 0,
        forall|i: int| 0 <= i < s.len() ==> s[i] != '\n',
    ensures
        line_count(s) == 1,
{
    lemma_no_newlines(s);
}

proof fn lemma_no_newlines(s: Seq<char>)
    requires
        forall|i: int| 0 <= i < s.len() ==> s[i] != '\n',
    ensures
        crate::sourcemap::newline_count(s) == 0,
    decreases s.len(),
{
    if s.len() > 0 {
        assert(forall|i: int|
            0 <= i < s.drop_last().len() ==> s.drop_last()[i] == s[i]);
        lemma_no_newlines(s.drop_last());
    }
}

/// The chunk concatenation is newline-terminated and its line count is the
/// files' total.
proof fn lemma_chunks_text_lines(files: Seq<(String, String)>)
    ensures
        chunks_text(files).len() == 0 || chunks_text(files).last() == '\n',
        line_count(chunks_text(files)) == total_lines(files),
    decreases files.len(),
{
    if files.len() > 0 {
        lemma_chunks_text_lines(files.drop_last());
        lemma_line_count_terminated(files.last().1@);
        crate::sourcemap::lemma_line_count_append(
            chunks_text(files.drop_last()),
            terminated(files.last().1@),
        );
    }
}

/// Partial sums of the files' line counts are nonnegative and below the total.
proof fn lemma_total_lines_bounds(files: Seq<(String, String)>, upto: int)
    requires
        0 <= upto <= files.len(),
    ensures
        0 <= total_lines(files.take(upto)) <= total_lines(files),
    decreases files.len() - upto,
{
    if upto == files.len() {
        assert(files.take(upto) =~= files);
        lemma_total_lines_nonneg(files);
    } else {
        lemma_total_lines_step(files, upto);
        lemma_total_lines_bounds(files, upto + 1);
        lemma_line_count_terminated(files[upto].1@);
        lemma_total_lines_nonneg(files.take(upto));
    }
}

proof fn lemma_total_lines_nonneg(files: Seq<(String, String)>)
    ensures
        0 <= total_lines(files),
    decreases files.len(),
{
    if files.len() > 0 {
        lemma_total_lines_nonneg(files.drop_last());
        lemma_line_count_terminated(files.last().1@);
    }
}

/// One more file adds its line count to the partial total.
proof fn lemma_total_lines_step(files: Seq<(String, String)>, i: int)
    requires
        0 <= i < files.len(),
    ensures
        total_lines(files.take(i + 1)) == total_lines(files.take(i)) + line_count(files[i].1@),
    decreases files.len(),
{
    assert(files.take(i + 1).drop_last() =~= files.take(i));
    assert(files.take(i + 1).last() == files[i]);
}

} // verus!
