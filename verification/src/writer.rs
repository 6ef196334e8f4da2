//! Serialization of a migration to its script file: the file name with its
//! zero-padded local sequence number, the sibling temporary name used for
//! crash-safe atomic replacement, and the file body. The filesystem writes
//! themselves — create the directory, write the temporary file, flush, then
//! atomically rename onto the final path — stay with the caller; everything
//! written is fixed here.

use vstd::prelude::*;

use crate::errors::Error;
use crate::hashid::Hasher;
use crate::hashid::spec_migration_id;

verus! {

/// Decimal digits of `n`, most significant first, no leading zeros.
pub open spec fn spec_decimal(n: int) -> Seq<char>
    decreases n,
{
    if n < 0 {
        Seq::empty()
    } else if n < 10 {
        seq![crate::hashid::hex_char(n as u64)]
    } else {
        spec_decimal(n / 10).push(crate::hashid::hex_char((n % 10) as u64))
    }
}

/// The migration file name: the sequence number, zero padded to at least
/// five digits, with the script suffix.
pub open spec fn spec_filename(index: int) -> Seq<char> {
    let digits = spec_decimal(index);
    let padded = if digits.len() >= 5 {
        digits
    } else {
        Seq::new((5 - digits.len()) as nat, |i: int| '0') + digits
    };
    padded + ".edgeql"@
}

/// The sibling temporary name the final file name is reached through.
pub open spec fn spec_temp_filename(name: Seq<char>) -> Seq<char> {
    ".~"@ + name + ".tmp"@
}

proof fn lemma_decimal_len(n: int)
    requires
        n >= 0,
    ensures
        spec_decimal(n).len() >= 1,
        n < 10 ==> spec_decimal(n).len() == 1,
        10 <= n < 100 ==> spec_decimal(n).len() == 2,
        100 <= n < 1000 ==> spec_decimal(n).len() == 3,
        1000 <= n < 10000 ==> spec_decimal(n).len() == 4,
        n >= 10000 ==> spec_decimal(n).len() >= 5,
    decreases n,
{
    if n >= 10 {
        lemma_decimal_len(n / 10);
    }
}

fn append_decimal(s: &mut String, n: u64)
    ensures
        final(s)@ == old(s)@ + spec_decimal(n as int),
    decreases n,
{
    if n < 10 {
        crate::hashid::append_hex_digit(s, n);
    } else {
        append_decimal(s, n / 10);
        crate::hashid::append_hex_digit(s, n % 10);
    }
}

/// Renders the migration file name for a local sequence number.
pub fn migration_filename(index: u64) -> (r: String)
    ensures
        r@ == spec_filename(index as int),
{
    let mut s = String::new();
    proof {
        reveal_strlit("0");
        lemma_decimal_len(index as int);
    }
    if index < 10 {
        s.append("0");
        s.append("0");
        s.append("0");
        s.append("0");
    } else if index < 100 {
        s.append("0");
        s.append("0");
        s.append("0");
    } else if index < 1000 {
        s.append("0");
        s.append("0");
    } else if index < 10000 {
        s.append("0");
    }
    append_decimal(&mut s, index);
    s.append(".edgeql");
    proof {
        let digits = spec_decimal(index as int);
        if digits.len() < 5 {
            assert(s@ =~= (Seq::new((5 - digits.len()) as nat, |i: int| '0') + digits) + ".edgeql"@);
        } else {
            assert(s@ =~= digits + ".edgeql"@);
        }
    }
    s
}

/// Derives the hidden sibling temporary name from the final file name.
pub fn temp_filename(name: &str) -> (r: String)
    ensures
        r@ == spec_temp_filename(name@),
{
    let mut s = String::from_str(".~");
    s.append(name);
    s.append(".tmp");
    proof {
        assert(s@ =~= spec_temp_filename(name@));
    }
    s
}

/// `s` with every line break followed by the statement indentation, so a
/// statement's own lines stay individually indented, never reflowed.
pub open spec fn indent_body(s: Seq<char>) -> Seq<char>
    decreases s.len(),
{
    if s.len() == 0 {
        Seq::empty()
    } else {
        indent_body(s.drop_last()) + if s.last() == '\n' {
            seq!['\n', ' ', ' ']
        } else {
            seq![s.last()]
        }
    }
}

/// One statement inside the block: two-space indentation, the statement's
/// text with its interior lines indented too, and a closing newline.
pub open spec fn indented_statement(s: Seq<char>) -> Seq<char> {
    seq![' ', ' '] + indent_body(s) + seq!['\n']
}

/// All statements of the block, in order.
pub open spec fn statements_block(stmts: Seq<Seq<char>>) -> Seq<char>
    decreases stmts.len(),
{
    if stmts.len() == 0 {
        Seq::empty()
    } else {
        statements_block(stmts.drop_last()) + indented_statement(stmts.last())
    }
}

/// Each confirmed statement with the terminating semicolon the writer adds.
pub open spec fn with_semicolons(confirmed: Seq<Seq<char>>) -> Seq<Seq<char>> {
    confirmed.map(|i: int, s: Seq<char>| s + ";"@)
}

/// The whole file body: header naming the migration id, the parent clause,
/// the opening delimiter, the indented statements, the closing delimiter.
pub open spec fn spec_migration_text(id: Seq<char>, parent: Seq<char>, stmts: Seq<Seq<char>>) -> Seq<
    char,
> {
    "CREATE MIGRATION "@ + id + "\n    ONTO "@ + parent + "\n{\n"@ + statements_block(stmts)
        + "};\n"@
}

/// Indenting never changes a run of text without line breaks.
proof fn lemma_indent_no_newline(a: Seq<char>, t: Seq<char>)
    requires
        forall|k: int| 0 <= k < t.len() ==> t[k] != '\n',
    ensures
        indent_body(a + t) == indent_body(a) + t,
    decreases t.len(),
{
    if t.len() == 0 {
        assert(a + t =~= a);
        assert(indent_body(a) + t =~= indent_body(a));
    } else {
        assert(forall|k: int| 0 <= k < t.drop_last().len() ==> t.drop_last()[k] == t[k]);
        lemma_indent_no_newline(a, t.drop_last());
        assert((a + t).drop_last() =~= a + t.drop_last());
        assert((a + t).last() == t.last());
        assert(indent_body(a + t) =~= indent_body(a) + t);
    }
}

fn append_indented(out: &mut String, stmt: &str)
    ensures
        final(out)@ == old(out)@ + indented_statement(stmt@),
{
    proof {
        reveal_strlit("  ");
        reveal_strlit("\n  ");
        reveal_strlit("\n");
    }
    out.append("  ");
    let ghost base = out@;
    let n = stmt.unicode_len();
    let mut start: usize = 0;
    let mut i: usize = 0;
    proof {
        assert(stmt@.take(0) =~= Seq::<char>::empty());
        assert(base =~= base + indent_body(stmt@.take(0)));
    }
    while i < n
        invariant
            n == stmt@.len(),
            start <= i <= n,
            out@ == base + indent_body(stmt@.take(start as int)),
            forall|k: int| start <= k < i ==> stmt@[k] != '\n',
        decreases n - i,
    {
        let c = stmt.get_char(i);
        if c == '\n' {
            let run = stmt.substring_char(start, i);
            out.append(run);
            out.append("\n  ");
            proof {
                reveal_strlit("\n  ");
                let runv = stmt@.subrange(start as int, i as int);
                assert(forall|k: int| 0 <= k < runv.len() ==> runv[k] != '\n');
                lemma_indent_no_newline(stmt@.take(start as int), runv);
                assert(stmt@.take(start as int) + runv =~= stmt@.take(i as int));
                assert(stmt@.take(i as int + 1).drop_last() =~= stmt@.take(i as int));
                assert(stmt@.take(i as int + 1).last() == '\n');
                assert(out@ =~= base + indent_body(stmt@.take(i as int + 1)));
            }
            start = i + 1;
        }
        i += 1;
    }
    let run = stmt.substring_char(start, n);
    out.append(run);
    out.append("\n");
    proof {
        let runv = stmt@.subrange(start as int, n as int);
        assert(forall|k: int| 0 <= k < runv.len() ==> runv[k] != '\n');
        lemma_indent_no_newline(stmt@.take(start as int), runv);
        assert(stmt@.take(start as int) + runv =~= stmt@.take(n as int));
        assert(stmt@.take(n as int) =~= stmt@);
        assert(out@ =~= old(out)@ + indented_statement(stmt@));
    }
}

/// Builds the migration's content-addressed id and complete file body from
/// the confirmed statements and the parent id. The id folds each statement
/// with its added semicolon, in order; the body carries exactly those
/// statements between the fixed header and footer.
pub fn build_migration(confirmed: &Vec<String>, parent: &str) -> (r: Result<(String, String), Error>)
    ensures
        r matches Ok(pair) ==> {
            &&& pair.0@ == spec_migration_id(parent@, with_semicolons(confirmed.deep_view()))
            &&& pair.1@ == spec_migration_text(
                pair.0@,
                parent@,
                with_semicolons(confirmed.deep_view()),
            )
        },
        r is Ok,
{
    proof {
        reveal_strlit(";");
    }
    let ghost semis = with_semicolons(confirmed.deep_view());
    let mut hasher = Hasher::new(parent);
    let mut stmts: Vec<String> = Vec::new();
    let n = confirmed.len();
    let mut i: usize = 0;
    proof {
        assert(stmts.deep_view() =~= semis.take(0));
    }
    while i < n
        invariant
            n == confirmed@.len(),
            i <= n,
            semis == with_semicolons(confirmed.deep_view()),
            semis.len() == n,
            stmts.deep_view() == semis.take(i as int),
            hasher.wf(),
            hasher.parent_view() == parent@,
            hasher.sources_view() == semis.take(i as int),
        decreases n - i,
    {
        let mut t = confirmed[i].clone();
        t.append(";");
        proof {
            assert(confirmed.deep_view()[i as int] == confirmed@[i as int]@);
            assert(t@ == semis[i as int]);
        }
        match hasher.source(t.as_str()) {
            Ok(()) => (),
            Err(e) => {
                return Err(e);
            },
        }
        let ghost prev = stmts@;
        let ghost prev_dv = stmts.deep_view();
        stmts.push(t);
        proof {
            assert(prev_dv.len() == i as int);
            assert(prev_dv == Seq::new(prev.len(), |k: int| prev[k].deep_view()));
            assert(prev.len() == i as int);
            assert forall|k: int| 0 <= k < stmts.deep_view().len() implies stmts.deep_view()[k]
                == semis.take(i as int + 1)[k] by {
                assert(stmts.deep_view()[k] == stmts@[k].deep_view());
                if k < i as int {
                    assert(stmts@[k] == prev[k]);
                    assert(prev_dv[k] == prev[k].deep_view());
                } else {
                    assert(stmts@[k] == t);
                }
            };
            assert(stmts.deep_view() =~= semis.take(i as int + 1));
        }
        i += 1;
    }
    proof {
        assert(semis.take(n as int) =~= semis);
    }
    let id = hasher.make_id();
    let mut text = String::from_str("CREATE MIGRATION ");
    text.append(id.as_str());
    text.append("\n    ONTO ");
    text.append(parent);
    text.append("\n{\n");
    let ghost header = text@;
    let m = stmts.len();
    let mut j: usize = 0;
    proof {
        assert(statements_block(semis.take(0)) =~= Seq::<char>::empty());
        assert(text@ =~= header + statements_block(semis.take(0)));
    }
    while j < m
        invariant
            m == stmts@.len(),
            j <= m,
            semis.len() == m,
            stmts.deep_view() == semis,
            text@ == header + statements_block(semis.take(j as int)),
        decreases m - j,
    {
        append_indented(&mut text, stmts[j].as_str());
        proof {
            assert(stmts@[j as int]@ == semis[j as int]);
            assert(semis.take(j as int + 1).drop_last() =~= semis.take(j as int));
            assert(semis.take(j as int + 1).last() == semis[j as int]);
            assert(text@ =~= header + statements_block(semis.take(j as int + 1)));
        }
        j += 1;
    }
    proof {
        assert(semis.take(m as int) =~= semis);
    }
    text.append("};\n");
    proof {
        assert(text@ =~= spec_migration_text(id@, parent@, semis));
    }
    Ok((id, text))
}

} // verus!
