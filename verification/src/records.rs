//! Migration records as the server reports them, and their linearization.
//!
//! The records plus their parent links form a directed acyclic graph (a
//! record may carry several parent names after a merge). Linearization
//! flattens that graph into one deterministic sequence: roots are seeded in
//! input order onto a work stack, and the traversal is depth first, most
//! recently discovered child first. Records never reachable from a root are
//! silently dropped; dangling parent references are ignored, not errors.

use vstd::prelude::*;

use crate::errors::Error;

verus! {

/// How the server recorded a migration's origin. Open ended: tags this
/// client does not know are carried, not rejected.
pub enum MigrationGeneratedBy {
    DevMode,
    DDLStatement,
    /// A tag introduced after this client was written, kept verbatim.
    Other(String),
}

/// Mathematical model of a tag.
pub enum GeneratedByView {
    DevMode,
    DDLStatement,
    Other(Seq<char>),
}

impl View for MigrationGeneratedBy {
    type V = GeneratedByView;

    open spec fn view(&self) -> GeneratedByView {
        match self {
            MigrationGeneratedBy::DevMode => GeneratedByView::DevMode,
            MigrationGeneratedBy::DDLStatement => GeneratedByView::DDLStatement,
            MigrationGeneratedBy::Other(tag) => GeneratedByView::Other(tag@),
        }
    }
}

/// One server-reported migration record.
pub struct DBMigration {
    /// Opaque identifier, unique among the records.
    pub name: String,
    /// Full DDL text; may be empty when not fetched.
    pub script: String,
    /// Zero or more parent identifiers; empty means a root.
    pub parent_names: Vec<String>,
    pub generated_by: Option<MigrationGeneratedBy>,
}

/// Mathematical model of a record.
pub struct MigrationView {
    pub name: Seq<char>,
    pub script: Seq<char>,
    pub parents: Seq<Seq<char>>,
    pub generated_by: Option<GeneratedByView>,
}

impl View for DBMigration {
    type V = MigrationView;

    open spec fn view(&self) -> MigrationView {
        MigrationView {
            name: self.name@,
            script: self.script@,
            parents: self.parent_names.deep_view(),
            generated_by: match self.generated_by {
                Option::None => Option::None,
                Option::Some(g) => Option::Some(g@),
            },
        }
    }
}

/// The records' models, in order.
pub open spec fn views_of(records: Seq<DBMigration>) -> Seq<MigrationView> {
    records.map(|i: int, r: DBMigration| r@)
}

/// Some record in `out` already carries the name `n`.
pub open spec fn is_emitted(out: Seq<MigrationView>, n: Seq<char>) -> bool {
    exists|j: int| 0 <= j < out.len() && (#[trigger] out[j]).name == n
}

/// Some record in `records` carries the name `n`.
pub open spec fn occurs(records: Seq<MigrationView>, n: Seq<char>) -> bool {
    exists|j: int| 0 <= j < records.len() && (#[trigger] records[j]).name == n
}

/// `r` lists `p` among its parents.
pub open spec fn has_parent(r: MigrationView, p: Seq<char>) -> bool {
    exists|k: int| 0 <= k < r.parents.len() && r.parents[k] == p
}

/// The records whose parents include `parent` and whose names are not yet
/// emitted, in input order.
pub open spec fn children_of(
    records: Seq<MigrationView>,
    parent: Seq<char>,
    out: Seq<MigrationView>,
) -> Seq<MigrationView> {
    records.filter(|r: MigrationView| has_parent(r, parent) && !is_emitted(out, r.name))
}

/// The root records, in input order.
pub open spec fn roots_of(records: Seq<MigrationView>) -> Seq<MigrationView> {
    records.filter(|r: MigrationView| r.parents.len() == 0)
}

/// How many records of `records` have no emitted name yet; the termination
/// measure of the traversal.
pub open spec fn unemitted_count(records: Seq<MigrationView>, out: Seq<MigrationView>) -> nat
    decreases records.len(),
{
    if records.len() == 0 {
        0
    } else {
        unemitted_count(records.drop_last(), out) + if is_emitted(out, records.last().name) {
            0nat
        } else {
            1nat
        }
    }
}

proof fn lemma_is_emitted_push(out: Seq<MigrationView>, r: MigrationView, n: Seq<char>)
    ensures
        is_emitted(out.push(r), n) <==> (is_emitted(out, n) || r.name == n),
{
    let p = out.push(r);
    if is_emitted(out, n) {
        let j = choose|j: int| 0 <= j < out.len() && (#[trigger] out[j]).name == n;
        assert(p[j].name == n);
    }
    if r.name == n {
        assert(p[out.len() as int].name == n);
    }
    if is_emitted(p, n) {
        let j = choose|j: int| 0 <= j < p.len() && (#[trigger] p[j]).name == n;
        if j < out.len() {
            assert(out[j].name == n);
        }
    }
}

proof fn lemma_unemitted_push_le(
    records: Seq<MigrationView>,
    out: Seq<MigrationView>,
    item: MigrationView,
)
    ensures
        unemitted_count(records, out.push(item)) <= unemitted_count(records, out),
    decreases records.len(),
{
    if records.len() > 0 {
        lemma_unemitted_push_le(records.drop_last(), out, item);
        lemma_is_emitted_push(out, item, records.last().name);
    }
}

proof fn lemma_unemitted_push_lt(
    records: Seq<MigrationView>,
    out: Seq<MigrationView>,
    item: MigrationView,
)
    requires
        occurs(records, item.name),
        !is_emitted(out, item.name),
    ensures
        unemitted_count(records, out.push(item)) < unemitted_count(records, out),
    decreases records.len(),
{
    let j = choose|j: int| 0 <= j < records.len() && (#[trigger] records[j]).name == item.name;
    lemma_is_emitted_push(out, item, records.last().name);
    if j == records.len() - 1 {
        lemma_unemitted_push_le(records.drop_last(), out, item);
    } else {
        assert(records.drop_last()[j].name == item.name);
        lemma_unemitted_push_lt(records.drop_last(), out, item);
    }
}

/// One run of the traversal from an intermediate state: pop the stack's top;
/// skip it when its name was already emitted (or it is no record at all),
/// otherwise emit it and push its pending children, in input order, on top.
pub open spec fn lin_loop(
    records: Seq<MigrationView>,
    stack: Seq<MigrationView>,
    out: Seq<MigrationView>,
) -> Seq<MigrationView>
    decreases unemitted_count(records, out), stack.len(),
    via lin_loop_dec
{
    if stack.len() == 0 {
        out
    } else {
        let item = stack.last();
        let rest = stack.drop_last();
        if is_emitted(out, item.name) || !occurs(records, item.name) {
            lin_loop(records, rest, out)
        } else {
            let out2 = out.push(item);
            lin_loop(records, rest + children_of(records, item.name, out2), out2)
        }
    }
}

#[via_fn]
proof fn lin_loop_dec(
    records: Seq<MigrationView>,
    stack: Seq<MigrationView>,
    out: Seq<MigrationView>,
) {
    if stack.len() > 0 {
        let item = stack.last();
        if !(is_emitted(out, item.name) || !occurs(records, item.name)) {
            lemma_unemitted_push_lt(records, out, item);
        }
    }
}

/// The linearization of `records`: the traversal started on the roots, in
/// input order, with nothing emitted.
pub open spec fn lin_spec(records: Seq<MigrationView>) -> Seq<MigrationView> {
    lin_loop(records, roots_of(records), Seq::empty())
}

fn clone_names(v: &Vec<String>) -> (r: Vec<String>)
    ensures
        r@ == v@,
{
    let mut r: Vec<String> = Vec::new();
    let n = v.len();
    let mut i: usize = 0;
    while i < n
        invariant
            n == v@.len(),
            i <= n,
            r@ == v@.take(i as int),
        decreases n - i,
    {
        r.push(v[i].clone());
        proof {
            assert(v@.take(i as int + 1) =~= v@.take(i as int).push(v@[i as int]));
        }
        i += 1;
    }
    proof {
        assert(v@.take(n as int) =~= v@);
    }
    r
}

impl DBMigration {
    /// A model-equal copy.
    pub fn duplicate(&self) -> (r: DBMigration)
        ensures
            r@ == self@,
    {
        let generated_by = match &self.generated_by {
            None => None,
            Some(MigrationGeneratedBy::DevMode) => Some(MigrationGeneratedBy::DevMode),
            Some(MigrationGeneratedBy::DDLStatement) => Some(MigrationGeneratedBy::DDLStatement),
            Some(MigrationGeneratedBy::Other(tag)) => Some(
                MigrationGeneratedBy::Other(tag.clone()),
            ),
        };
        let r = DBMigration {
            name: self.name.clone(),
            script: self.script.clone(),
            parent_names: clone_names(&self.parent_names),
            generated_by,
        };
        proof {
            assert(r.parent_names.deep_view() =~= self.parent_names.deep_view());
            assert(r@ =~~= self@);
        }
        r
    }

    /// The record's identifier.
    pub fn name(&self) -> (r: &str)
        ensures
            r@ == self@.name,
    {
        self.name.as_str()
    }

    /// A record with no parent is a root.
    pub fn is_root(&self) -> (r: bool)
        ensures
            r == (self@.parents.len() == 0),
    {
        self.parent_names.len() == 0
    }

    /// The record's parent identifiers, in recorded order.
    pub fn parents(&self) -> (r: &Vec<String>)
        ensures
            r.deep_view() == self@.parents,
    {
        &self.parent_names
    }
}

fn contains_name(out: &Vec<DBMigration>, n: &String) -> (r: bool)
    ensures
        r == is_emitted(views_of(out@), n@),
{
    let m = out.len();
    let mut i: usize = 0;
    while i < m
        invariant
            m == out@.len(),
            i <= m,
            forall|j: int| 0 <= j < i ==> (#[trigger] out@[j])@.name != n@,
        decreases m - i,
    {
        if out[i].name.eq(n) {
            proof {
                assert(views_of(out@)[i as int].name == n@);
            }
            return true;
        }
        i += 1;
    }
    proof {
        assert forall|j: int| 0 <= j < views_of(out@).len() implies (#[trigger] views_of(
            out@,
        )[j]).name != n@ by {
            assert(views_of(out@)[j] == out@[j]@);
        }
    }
    false
}

fn lists_parent(r: &DBMigration, p: &String) -> (res: bool)
    ensures
        res == has_parent(r@, p@),
{
    let m = r.parent_names.len();
    let mut i: usize = 0;
    while i < m
        invariant
            m == r.parent_names@.len(),
            i <= m,
            forall|k: int| 0 <= k < i ==> (#[trigger] r.parent_names.deep_view()[k]) != p@,
        decreases m - i,
    {
        if r.parent_names[i].eq(p) {
            proof {
                assert(r@.parents[i as int] == p@);
            }
            return true;
        }
        proof {
            assert(r.parent_names.deep_view()[i as int] == r.parent_names@[i as int]@);
        }
        i += 1;
    }
    false
}

/// Orders the records into one deterministic sequence consistent with the
/// parent/child relationships: a pure function of the input, no I/O. The
/// result equals the depth-first stack traversal that `lin_spec` spells out,
/// so equal inputs give identical output across runs.
pub fn linearize_db_migrations(migrations: Vec<DBMigration>) -> (out: Vec<DBMigration>)
    ensures
        views_of(out@) == lin_spec(views_of(migrations@)),
{
    let ghost all = views_of(migrations@);
    let mut stack: Vec<DBMigration> = Vec::new();
    let n = migrations.len();
    let mut i: usize = 0;
    proof {
        reveal(Seq::filter);
        assert(all.take(0) =~= Seq::<MigrationView>::empty());
        assert(all.take(0).filter(|r: MigrationView| r.parents.len() == 0) =~= Seq::<
            MigrationView,
        >::empty());
        assert(views_of(stack@) =~= Seq::<MigrationView>::empty());
    }
    while i < n
        invariant
            all == views_of(migrations@),
            n == migrations@.len(),
            n == all.len(),
            i <= n,
            views_of(stack@) == all.take(i as int).filter(
                |r: MigrationView| r.parents.len() == 0,
            ),
            forall|j: int| 0 <= j < stack@.len() ==> occurs(all, (#[trigger] stack@[j])@.name),
        decreases n - i,
    {
        proof {
            reveal(Seq::filter);
            assert(all.take(i as int + 1).drop_last() =~= all.take(i as int));
            assert(all.take(i as int + 1).last() == all[i as int]);
            assert(all[i as int] == migrations@[i as int]@);
        }
        if migrations[i].is_root() {
            let item = migrations[i].duplicate();
            stack.push(item);
            proof {
                assert(views_of(stack@) =~= views_of(stack@.drop_last()).push(
                    stack@.last()@,
                ));
                assert(all[i as int].name == stack@.last()@.name);
            }
        } else {
            proof {
                assert(views_of(stack@) == all.take(i as int + 1).filter(
                    |r: MigrationView| r.parents.len() == 0,
                ));
            }
        }
        i += 1;
    }
    proof {
        assert(all.take(n as int) =~= all);
    }
    let mut out: Vec<DBMigration> = Vec::new();
    proof {
        assert(views_of(out@) =~= Seq::<MigrationView>::empty());
    }
    while stack.len() > 0
        invariant
            all == views_of(migrations@),
            n == migrations@.len(),
            n == all.len(),
            lin_loop(all, views_of(stack@), views_of(out@)) == lin_spec(all),
            forall|j: int| 0 <= j < stack@.len() ==> occurs(all, (#[trigger] stack@[j])@.name),
        decreases unemitted_count(all, views_of(out@)), stack@.len(),
    {
        let ghost stack_old = views_of(stack@);
        let ghost out_old = views_of(out@);
        let item = match stack.pop() {
            Some(x) => x,
            None => {
                proof {
                    assert(false);
                }
                unreached()
            },
        };
        proof {
            assert(views_of(stack@) =~= stack_old.drop_last());
            assert(item@ == stack_old.last());
        }
        let already = contains_name(&out, &item.name);
        if !already {
            proof {
                lemma_unemitted_push_lt(all, out_old, item@);
            }
            let parent_name = item.name.clone();
            out.push(item);
            let ghost out2 = views_of(out@);
            let ghost rest = views_of(stack@);
            let ghost pred = |r: MigrationView| has_parent(r, parent_name@) && !is_emitted(
                out2,
                r.name,
            );
            proof {
                assert(out2 =~= out_old.push(stack_old.last()));
                reveal(Seq::filter);
                assert(all.take(0) =~= Seq::<MigrationView>::empty());
                assert(rest + all.take(0).filter(pred) =~= rest);
            }
            let mut j: usize = 0;
            while j < n
                invariant
                    all == views_of(migrations@),
                    n == migrations@.len(),
                    n == all.len(),
                    j <= n,
                    views_of(out@) == out2,
                    views_of(stack@) == rest + all.take(j as int).filter(pred),
                    pred == (|r: MigrationView| has_parent(r, parent_name@) && !is_emitted(
                        out2,
                        r.name,
                    )),
                    forall|k: int|
                        0 <= k < stack@.len() ==> occurs(all, (#[trigger] stack@[k])@.name),
                decreases n - j,
            {
                proof {
                    reveal(Seq::filter);
                    assert(all.take(j as int + 1).drop_last() =~= all.take(j as int));
                    assert(all.take(j as int + 1).last() == all[j as int]);
                    assert(all[j as int] == migrations@[j as int]@);
                }
                let child_hit = lists_parent(&migrations[j], &parent_name);
                let pending = if child_hit {
                    !contains_name(&out, &migrations[j].name)
                } else {
                    false
                };
                if pending {
                    let child = migrations[j].duplicate();
                    stack.push(child);
                    proof {
                        assert(views_of(stack@) =~= views_of(stack@.drop_last()).push(
                            stack@.last()@,
                        ));
                        assert(stack@.last()@ == all[j as int]);
                        assert(pred(all[j as int]));
                        assert(all.take(j as int + 1).filter(pred) =~= all.take(
                            j as int,
                        ).filter(pred).push(all[j as int]));
                        assert((rest + all.take(j as int).filter(pred)).push(all[j as int]) =~= rest
                            + all.take(j as int).filter(pred).push(all[j as int]));
                        assert(views_of(stack@) =~= rest + all.take(j as int + 1).filter(pred));
                        assert(all[j as int].name == stack@.last()@.name);
                    }
                } else {
                    proof {
                        assert(!pred(all[j as int]));
                        assert(views_of(stack@) =~= rest + all.take(j as int + 1).filter(pred));
                    }
                }
                j += 1;
            }
            proof {
                assert(all.take(n as int) =~= all);
                assert(views_of(stack@) == rest + children_of(all, parent_name@, out2));
                assert(lin_loop(all, stack_old, out_old) == lin_loop(
                    all,
                    views_of(stack@),
                    views_of(out@),
                ));
            }
        }
    }
    proof {
        assert(lin_loop(all, views_of(stack@), views_of(out@)) == views_of(out@));
    }
    out
}

/// Some earlier position of `out` holds a parent of the record at `i`.
pub open spec fn parent_before(out: Seq<MigrationView>, i: int) -> bool {
    exists|j: int, k: int|
        0 <= j < i && 0 <= k < out[i].parents.len() && out[i].parents[k] == out[j].name
}

/// A stack fit for the traversal: every waiting record is a root or has a
/// parent already emitted.
pub open spec fn stack_ok(stack: Seq<MigrationView>, out: Seq<MigrationView>) -> bool {
    forall|s: int|
        0 <= s < stack.len() ==> (#[trigger] stack[s]).parents.len() == 0 || exists|k: int|
            0 <= k < stack[s].parents.len() && is_emitted(out, stack[s].parents[k])
}

/// Emitted order respects parents: every emitted record with parents sits
/// after one of them.
pub open spec fn out_ok(out: Seq<MigrationView>) -> bool {
    forall|i: int| 0 <= i < out.len() && (#[trigger] out[i]).parents.len() > 0 ==> parent_before(out, i)
}

proof fn lemma_lin_loop_parents(
    records: Seq<MigrationView>,
    stack: Seq<MigrationView>,
    out: Seq<MigrationView>,
)
    requires
        stack_ok(stack, out),
        out_ok(out),
    ensures
        out_ok(lin_loop(records, stack, out)),
    decreases unemitted_count(records, out), stack.len(),
{
    if stack.len() > 0 {
        let item = stack.last();
        let rest = stack.drop_last();
        assert(forall|s: int| 0 <= s < rest.len() ==> rest[s] == stack[s]);
        if is_emitted(out, item.name) || !occurs(records, item.name) {
            lemma_lin_loop_parents(records, rest, out);
        } else {
            lemma_unemitted_push_lt(records, out, item);
            let out2 = out.push(item);
            let kids = children_of(records, item.name, out2);
            let stack2 = rest + kids;
            assert(stack[stack.len() - 1] == item);
            assert forall|i: int|
                0 <= i < out2.len() && (#[trigger] out2[i]).parents.len() > 0 implies parent_before(
                out2,
                i,
            ) by {
                if i < out.len() {
                    assert(out[i].parents.len() > 0);
                    assert(parent_before(out, i));
                    let (j, k) = choose|j: int, k: int|
                        0 <= j < i && 0 <= k < out[i].parents.len() && out[i].parents[k]
                            == out[j].name;
                    assert(out2[i].parents[k] == out2[j].name);
                } else {
                    let k = choose|k: int|
                        0 <= k < item.parents.len() && is_emitted(out, item.parents[k]);
                    let j = choose|j: int|
                        0 <= j < out.len() && (#[trigger] out[j]).name == item.parents[k];
                    assert(out2[i].parents[k] == out2[j].name);
                }
            };
            assert forall|s: int|
                0 <= s < stack2.len() implies (#[trigger] stack2[s]).parents.len() == 0 || exists|
                k: int,
            | 0 <= k < stack2[s].parents.len() && is_emitted(out2, stack2[s].parents[k]) by {
                if s < rest.len() {
                    assert(stack2[s] == rest[s]);
                    if rest[s].parents.len() > 0 {
                        let k = choose|k: int|
                            0 <= k < rest[s].parents.len() && is_emitted(out, rest[s].parents[k]);
                        lemma_is_emitted_push(out, item, rest[s].parents[k]);
                        assert(is_emitted(out2, stack2[s].parents[k]));
                    }
                } else {
                    let c = stack2[s];
                    assert(c == kids[s - rest.len()]);
                    lemma_child_has_parent(records, item.name, out2, s - rest.len());
                    let k = choose|k: int| 0 <= k < c.parents.len() && c.parents[k] == item.name;
                    assert(out2[out.len() as int].name == item.name);
                    assert(is_emitted(out2, c.parents[k]));
                }
            };
            lemma_lin_loop_parents(records, stack2, out2);
        }
    }
}

proof fn lemma_child_has_parent(
    records: Seq<MigrationView>,
    parent: Seq<char>,
    out: Seq<MigrationView>,
    i: int,
)
    requires
        0 <= i < children_of(records, parent, out).len(),
    ensures
        has_parent(children_of(records, parent, out)[i], parent),
{
    let pred = |r: MigrationView| has_parent(r, parent) && !is_emitted(out, r.name);
    records.lemma_filter_pred(pred, i);
}

/// Law: the linearization respects the parent links — every record that
/// carries parents appears after at least one of them; roots alone may
/// stand anywhere. Together with `linearize_db_migrations`, whose result
/// is exactly `lin_spec`, this holds of every linearized sequence.
pub proof fn lemma_linearization_respects_parents(records: Seq<MigrationView>)
    ensures
        out_ok(lin_spec(records)),
{
    let stack = roots_of(records);
    assert forall|s: int|
        0 <= s < stack.len() implies (#[trigger] stack[s]).parents.len() == 0 || exists|k: int|
        0 <= k < stack[s].parents.len() && is_emitted(Seq::<MigrationView>::empty(), stack[s].parents[k]) by {
        let pred = |r: MigrationView| r.parents.len() == 0;
        records.lemma_filter_pred(pred, s);
    };
    lemma_lin_loop_parents(records, stack, Seq::empty());
}

/// No identifier occurs twice among the emitted records.
pub open spec fn names_distinct(out: Seq<MigrationView>) -> bool {
    forall|i: int, j: int|
        0 <= i < j < out.len() ==> (#[trigger] out[i]).name != (#[trigger] out[j]).name
}

proof fn lemma_lin_loop_distinct(
    records: Seq<MigrationView>,
    stack: Seq<MigrationView>,
    out: Seq<MigrationView>,
)
    requires
        names_distinct(out),
    ensures
        names_distinct(lin_loop(records, stack, out)),
    decreases unemitted_count(records, out), stack.len(),
{
    if stack.len() > 0 {
        let item = stack.last();
        let rest = stack.drop_last();
        if is_emitted(out, item.name) || !occurs(records, item.name) {
            lemma_lin_loop_distinct(records, rest, out);
        } else {
            lemma_unemitted_push_lt(records, out, item);
            let out2 = out.push(item);
            assert forall|i: int, j: int| 0 <= i < j < out2.len() implies (#[trigger] out2[i]).name
                != (#[trigger] out2[j]).name by {
                if j < out.len() {
                    assert(out2[i] == out[i]);
                    assert(out2[j] == out[j]);
                } else {
                    assert(out2[j] == item);
                    assert(out2[i] == out[i]);
                    if out[i].name == item.name {
                        assert(is_emitted(out, item.name));
                    }
                }
            };
            lemma_lin_loop_distinct(records, rest + children_of(records, item.name, out2), out2);
        }
    }
}

/// Law: linearization emits every identifier at most once, so the result
/// reads as a mapping from identifier to record, in traversal order.
pub proof fn lemma_linearization_names_distinct(records: Seq<MigrationView>)
    ensures
        names_distinct(lin_spec(records)),
{
    lemma_lin_loop_distinct(records, roots_of(records), Seq::empty());
}

/// Picks the single migration matching a requested name prefix: none matched
/// gives `None`, one matched gives it, several is an ambiguity error naming
/// the prefix. The prefix filtering itself is the server's lookup; this
/// settles what its answer means.
pub fn select_by_prefix(found: Vec<DBMigration>, prefix: &str) -> (r: Result<
    Option<DBMigration>,
    Error,
>)
    ensures
        found@.len() == 0 ==> (r matches Ok(o) && o is None),
        found@.len() == 1 ==> (r matches Ok(o) && o matches Some(m) && m == found@[0]),
        found@.len() > 1 ==> (r matches Err(e) && e matches Error::AmbiguousPrefix { prefix: p }
            && p@ == prefix@),
{
    let mut found = found;
    if found.len() == 0 {
        return Ok(None);
    }
    if found.len() > 1 {
        let p = prefix_to_string(prefix);
        return Err(Error::AmbiguousPrefix { prefix: p });
    }
    match found.pop() {
        Some(m) => Ok(Some(m)),
        None => {
            proof {
                assert(false);
            }
            unreached()
        },
    }
}

fn prefix_to_string(prefix: &str) -> (r: String)
    ensures
        r@ == prefix@,
{
    prefix.to_owned()
}

} // verus!
