//! Content-addressed migration identifiers.
//!
//! The id of a migration is a deterministic function of its parent id and
//! the ordered list of its statement texts: identical inputs always render
//! the identical id, across processes and runs. The accumulator is a 64-bit
//! FNV-1a fold over the parent and each statement, a separator after each
//! part, rendered as 16 lowercase hex digits behind a stable `m1` prefix.

use vstd::prelude::*;

use crate::errors::Error;

verus! {

pub const FNV_OFFSET: u64 = 0xcbf29ce484222325;

pub const FNV_PRIME: u64 = 0x100000001b3;

/// One FNV-1a step: fold one character into the accumulator.
pub open spec fn fnv_step(acc: u64, c: char) -> u64 {
    (((acc ^ ((c as u32) as u64)) as int * (FNV_PRIME as int)) % 0x10000000000000000) as u64
}

/// Fold a whole text, left to right.
pub open spec fn fnv_chars(acc: u64, s: Seq<char>) -> u64
    decreases s.len(),
{
    if s.len() == 0 {
        acc
    } else {
        fnv_step(fnv_chars(acc, s.drop_last()), s.last())
    }
}

/// The accumulator after the parent id and every statement, each closed by a
/// separator so that neighbouring texts cannot run together.
pub open spec fn hasher_acc(parent: Seq<char>, sources: Seq<Seq<char>>) -> u64
    decreases sources.len(),
{
    if sources.len() == 0 {
        fnv_step(fnv_chars(FNV_OFFSET, parent), '\0')
    } else {
        fnv_step(fnv_chars(hasher_acc(parent, sources.drop_last()), sources.last()), '\0')
    }
}

/// The hex digit for a value below 16.
pub open spec fn hex_char(d: u64) -> char {
    if d == 0 {
        '0'
    } else if d == 1 {
        '1'
    } else if d == 2 {
        '2'
    } else if d == 3 {
        '3'
    } else if d == 4 {
        '4'
    } else if d == 5 {
        '5'
    } else if d == 6 {
        '6'
    } else if d == 7 {
        '7'
    } else if d == 8 {
        '8'
    } else if d == 9 {
        '9'
    } else if d == 10 {
        'a'
    } else if d == 11 {
        'b'
    } else if d == 12 {
        'c'
    } else if d == 13 {
        'd'
    } else if d == 14 {
        'e'
    } else {
        'f'
    }
}

/// 16 hex digits, most significant nibble first.
pub open spec fn hex64(v: u64) -> Seq<char> {
    Seq::new(16, |i: int| hex_char((v >> (((15 - i) * 4) as u64)) & 0xf))
}

/// The rendered id for a parent and its ordered statements.
pub open spec fn spec_migration_id(parent: Seq<char>, sources: Seq<Seq<char>>) -> Seq<char> {
    "m1"@ + hex64(hasher_acc(parent, sources))
}

/// Law: the id is content addressed — it depends on the parent id and the
/// ordered statement texts alone, so two hashers fed equal inputs render
/// byte-identical ids, in whatever run or process they live.
pub proof fn lemma_id_deterministic(a: Hasher, b: Hasher)
    requires
        a.parent_view() == b.parent_view(),
        a.sources_view() == b.sources_view(),
    ensures
        spec_migration_id(a.parent_view(), a.sources_view()) == spec_migration_id(
            b.parent_view(),
            b.sources_view(),
        ),
{
}

fn exec_fnv_step(acc: u64, c: char) -> (r: u64)
    ensures
        r == fnv_step(acc, c),
{
    let x: u64 = acc ^ ((c as u32) as u64);
    let prod: u128 = (x as u128) * (FNV_PRIME as u128);
    let reduced: u128 = prod % 0x10000000000000000u128;
    reduced as u64
}

fn exec_fnv_str(acc: u64, s: &str) -> (r: u64)
    ensures
        r == fnv_chars(acc, s@),
{
    let n = s.unicode_len();
    let mut cur = acc;
    let mut i: usize = 0;
    while i < n
        invariant
            n == s@.len(),
            i <= n,
            cur == fnv_chars(acc, s@.take(i as int)),
        decreases n - i,
    {
        let c = s.get_char(i);
        cur = exec_fnv_step(cur, c);
        proof {
            assert(s@.take(i as int + 1).drop_last() =~= s@.take(i as int));
            assert(s@.take(i as int + 1).last() == c);
        }
        i += 1;
    }
    proof {
        assert(s@.take(n as int) =~= s@);
    }
    cur
}

pub(crate) fn append_hex_digit(s: &mut String, d: u64)
    requires
        d < 16,
    ensures
        final(s)@ == old(s)@ + seq![hex_char(d)],
{
    proof {
        reveal_strlit("0");
        reveal_strlit("1");
        reveal_strlit("2");
        reveal_strlit("3");
        reveal_strlit("4");
        reveal_strlit("5");
        reveal_strlit("6");
        reveal_strlit("7");
        reveal_strlit("8");
        reveal_strlit("9");
        reveal_strlit("a");
        reveal_strlit("b");
        reveal_strlit("c");
        reveal_strlit("d");
        reveal_strlit("e");
        reveal_strlit("f");
    }
    if d == 0 {
        s.append("0");
    } else if d == 1 {
        s.append("1");
    } else if d == 2 {
        s.append("2");
    } else if d == 3 {
        s.append("3");
    } else if d == 4 {
        s.append("4");
    } else if d == 5 {
        s.append("5");
    } else if d == 6 {
        s.append("6");
    } else if d == 7 {
        s.append("7");
    } else if d == 8 {
        s.append("8");
    } else if d == 9 {
        s.append("9");
    } else if d == 10 {
        s.append("a");
    } else if d == 11 {
        s.append("b");
    } else if d == 12 {
        s.append("c");
    } else if d == 13 {
        s.append("d");
    } else if d == 14 {
        s.append("e");
    } else {
        s.append("f");
    }
    proof {
        assert(final(s)@ =~= old(s)@ + seq![hex_char(d)]);
    }
}

/// Running generator of a migration's content-addressed id.
pub struct Hasher {
    acc: u64,
    parent: Ghost<Seq<char>>,
    sources: Ghost<Seq<Seq<char>>>,
}

impl Hasher {
    /// The parent id this hasher was opened with.
    pub closed spec fn parent_view(self) -> Seq<char> {
        self.parent@
    }

    /// The statement texts folded in so far, in call order.
    pub closed spec fn sources_view(self) -> Seq<Seq<char>> {
        self.sources@
    }

    /// The accumulator mirrors the recorded parent and statements.
    pub closed spec fn wf(self) -> bool {
        self.acc == hasher_acc(self.parent@, self.sources@)
    }

    /// Opens a hasher for a migration onto `parent_id`.
    pub fn new(parent_id: &str) -> (r: Hasher)
        ensures
            r.wf(),
            r.parent_view() == parent_id@,
            r.sources_view() == Seq::<Seq<char>>::empty(),
    {
        let folded = exec_fnv_str(FNV_OFFSET, parent_id);
        let acc = exec_fnv_step(folded, '\0');
        Hasher { acc, parent: Ghost(parent_id@), sources: Ghost(Seq::empty()) }
    }

    /// Folds one statement's text into the id, in call order. The
    /// canonicalization is total, so this never fails.
    pub fn source(&mut self, statement: &str) -> (r: Result<(), Error>)
        requires
            old(self).wf(),
        ensures
            r is Ok,
            final(self).wf(),
            final(self).parent_view() == old(self).parent_view(),
            final(self).sources_view() == old(self).sources_view().push(statement@),
    {
        let folded = exec_fnv_str(self.acc, statement);
        self.acc = exec_fnv_step(folded, '\0');
        proof {
            self.sources@ = self.sources@.push(statement@);
        }
        proof {
            assert(self.sources@.drop_last() =~= old(self).sources@);
            assert(self.sources@.last() == statement@);
        }
        Ok(())
    }

    /// Renders the id: the stable prefix and 16 lowercase hex digits of the
    /// accumulator. Identical `(parent, statements)` give identical strings.
    pub fn make_id(&self) -> (r: String)
        requires
            self.wf(),
        ensures
            r@ == spec_migration_id(self.parent_view(), self.sources_view()),
    {
        let v = self.acc;
        let mut s = String::from_str("m1");
        let mut k: usize = 0;
        while k < 16
            invariant
                k <= 16,
                v == self.acc,
                s@ == "m1"@ + hex64(v).take(k as int),
            decreases 16 - k,
        {
            let shift: u64 = (15 - (k as u64)) * 4;
            let d: u64 = (v >> shift) & 0xf;
            proof {
                assert((v >> shift) & 0xf < 16) by (bit_vector);
            }
            append_hex_digit(&mut s, d);
            proof {
                assert(hex64(v)[k as int] == hex_char(d));
                assert(hex64(v).take(k as int + 1) =~= hex64(v).take(k as int).push(
                    hex64(v)[k as int],
                ));
                assert(s@ =~= "m1"@ + hex64(v).take(k as int + 1));
            }
            k += 1;
        }
        proof {
            assert(hex64(v).take(16) =~= hex64(v));
        }
        s
    }
}

} // verus!
