//! Decisions of the migration-creation session.
//!
//! The session itself is a strictly sequential conversation with the server
//! — start a speculative migration, repeatedly ask it to describe the
//! current migration, apply what it is confident about, then write the file
//! and always abort the speculative state. The caller performs the
//! round-trips; every decision between them is taken here, with a contract.

use vstd::prelude::*;

use crate::errors::Error;

verus! {

/// One input a proposed statement still needs from a user.
pub struct RequiredUserInput {
    pub name: String,
    pub prompt: String,
}

/// One proposed DDL statement, with the inputs it still requires.
pub struct StatementProposal {
    pub text: String,
    pub required_user_input: Vec<RequiredUserInput>,
}

/// One server proposal: its statements, in order, and how confident the
/// server is, in hundred-thousandths (100000 is certainty). The wire value
/// is a real number in [0, 1]; the caller scales it by 100000, rounding
/// down, before it reaches the engine.
pub struct Proposal {
    pub statements: Vec<StatementProposal>,
    pub confidence_x100k: u64,
    pub prompt: Option<String>,
}

/// What "describe current migration" returned: the statements the server
/// has confirmed so far and the proposals still open.
pub struct CurrentMigration {
    pub confirmed: Vec<String>,
    pub proposed: Vec<Proposal>,
}

/// A proposal at or above this confidence is applied without asking.
pub const SAFE_CONFIDENCE_X100K: u64 = 99999;

/// Rounds of the describe/apply loop allowed before giving up, so a server
/// that keeps re-proposing cannot hold the session forever.
pub const MAX_DESCRIBE_ROUNDS: u64 = 1000;

/// What one describe round decides.
pub enum PlanOutcome {
    /// No proposals were pending: the confirmed statements are final.
    Complete(Vec<String>),
    /// Apply the plan's statements, then describe again.
    Retry,
    /// A high-confidence statement needs user input; fatal in
    /// non-interactive mode. Statements before it are still applied first.
    Blocked { statement: String, prompts: Vec<String> },
}

/// The statements to execute, in order, and what to do afterwards.
pub struct DescribePlan {
    pub statements: Vec<String>,
    pub outcome: PlanOutcome,
}

/// The statements of every safe proposal, flattened in order.
pub open spec fn safe_statements(proposals: Seq<Proposal>) -> Seq<StatementProposal>
    decreases proposals.len(),
{
    if proposals.len() == 0 {
        Seq::empty()
    } else {
        safe_statements(proposals.drop_last()) + if proposals.last().confidence_x100k
            >= SAFE_CONFIDENCE_X100K {
            proposals.last().statements@
        } else {
            Seq::empty()
        }
    }
}

/// The position of the first statement that still needs user input.
pub open spec fn first_blocked(stmts: Seq<StatementProposal>) -> Option<int>
    decreases stmts.len(),
{
    if stmts.len() == 0 {
        None
    } else if stmts.first().required_user_input@.len() > 0 {
        Some(0)
    } else {
        match first_blocked(stmts.drop_first()) {
            Some(k) => Some(k + 1),
            None => None,
        }
    }
}

/// The texts of the statements, in order.
pub open spec fn texts_of(stmts: Seq<StatementProposal>) -> Seq<Seq<char>> {
    stmts.map(|i: int, s: StatementProposal| s.text@)
}

/// The prompts of the inputs, in order.
pub open spec fn prompts_of(inputs: Seq<RequiredUserInput>) -> Seq<Seq<char>> {
    inputs.map(|i: int, r: RequiredUserInput| r.prompt@)
}

proof fn lemma_first_blocked_at(stmts: Seq<StatementProposal>, k: int)
    requires
        0 <= k <= stmts.len(),
        forall|j: int| 0 <= j < k ==> (#[trigger] stmts[j]).required_user_input@.len() == 0,
        k < stmts.len() ==> stmts[k].required_user_input@.len() > 0,
    ensures
        k < stmts.len() ==> first_blocked(stmts) == Some(k),
        k == stmts.len() ==> first_blocked(stmts) is None,
    decreases stmts.len(),
{
    if stmts.len() > 0 {
        if k == 0 {
            if stmts.len() > 0 && k < stmts.len() {
            }
        } else {
            assert(stmts[0].required_user_input@.len() == 0);
            let rest = stmts.drop_first();
            assert(forall|j: int|
                0 <= j < k - 1 ==> (#[trigger] rest[j]).required_user_input@.len() == 0);
            if k < stmts.len() {
                assert(rest[k - 1].required_user_input@.len() > 0);
            }
            lemma_first_blocked_at(rest, k - 1);
        }
    }
}

/// Decides one round of the non-interactive describe/apply loop.
///
/// With no pending proposal the confirmed statements are final. Otherwise
/// every proposal at or above the safe confidence contributes its statements
/// in order; the first one that still needs user input blocks the session,
/// reporting its text and every required prompt, and only the statements
/// before it are applied. Proposals below the threshold contribute nothing:
/// the caller re-describes.
pub fn process_describe(descr: CurrentMigration) -> (plan: DescribePlan)
    ensures
        descr.proposed@.len() == 0 ==> (plan.outcome matches PlanOutcome::Complete(c) && c@
            == descr.confirmed@ && plan.statements@.len() == 0),
        descr.proposed@.len() > 0 ==> {
            let safe = safe_statements(descr.proposed@);
            match first_blocked(safe) {
                Some(k) => {
                    &&& plan.outcome matches PlanOutcome::Blocked { statement, prompts }
                    &&& statement@ == safe[k].text@
                    &&& prompts.deep_view() == prompts_of(safe[k].required_user_input@)
                    &&& plan.statements.deep_view() == texts_of(safe.take(k))
                },
                None => {
                    &&& plan.outcome is Retry
                    &&& plan.statements.deep_view() == texts_of(safe)
                },
            }
        },
{
    if descr.proposed.len() == 0 {
        return DescribePlan { statements: Vec::new(), outcome: PlanOutcome::Complete(
            descr.confirmed,
        ) };
    }
    let ghost proposals = descr.proposed@;
    let ghost safe = safe_statements(proposals);
    let proposed = descr.proposed;
    let n = proposed.len();
    let mut statements: Vec<String> = Vec::new();
    let mut i: usize = 0;
    proof {
        assert(safe_statements(proposals.take(0)) =~= Seq::<StatementProposal>::empty());
        assert(safe.take(0) =~= Seq::<StatementProposal>::empty());
    }
    while i < n
        invariant
            proposals == proposed@,
            proposals == descr.proposed@,
            n == proposals.len(),
            i <= n,
            safe == safe_statements(proposals),
            statements@.len() <= safe.len(),
            safe_statements(proposals.take(i as int)) == safe.take(statements@.len() as int),
            forall|x: int|
                0 <= x < statements@.len() ==> (#[trigger] statements@[x])@ == safe[x].text@,
            forall|x: int|
                0 <= x < statements@.len() ==> (#[trigger] safe[x]).required_user_input@.len()
                    == 0,
        decreases n - i,
    {
        let ghost done = safe_statements(proposals.take(i as int));
        proof {
            lemma_safe_statements_take_step(proposals, i as int);
            assert(proposals =~= proposals.take(i as int + 1) + proposals.skip(i as int + 1));
            lemma_safe_statements_concat(
                proposals.take(i as int + 1),
                proposals.skip(i as int + 1),
            );
        }
        let ghost tail = safe_statements(proposals.skip(i as int + 1));
        if proposed[i].confidence_x100k >= SAFE_CONFIDENCE_X100K {
            proof {
                assert(safe =~= done + proposals[i as int].statements@ + tail);
            }
            let stmts = &proposed[i].statements;
            let m = stmts.len();
            let mut j: usize = 0;
            while j < m
                invariant
                    proposals == proposed@,
                    n == proposals.len(),
                    i < n,
                    m == proposals[i as int].statements@.len(),
                    j <= m,
                    stmts == &proposed[i as int].statements,
                    safe == safe_statements(proposals),
                    done == safe_statements(proposals.take(i as int)),
                    proposals == descr.proposed@,
                    safe == done + proposals[i as int].statements@ + tail,
                    statements@.len() == done.len() + j,
                    statements@.len() <= safe.len(),
                    forall|x: int|
                        0 <= x < statements@.len() ==> (#[trigger] statements@[x])@
                            == safe[x].text@,
                    forall|x: int|
                        0 <= x < statements@.len() ==> (#[trigger] safe[x]).required_user_input@.len() == 0,
                decreases m - j,
            {
                let ghost k = statements@.len() as int;
                proof {
                    assert(safe[k] == proposals[i as int].statements@[j as int]);
                }
                if stmts[j].required_user_input.len() > 0 {
                    let statement = stmts[j].text.clone();
                    let inputs = &stmts[j].required_user_input;
                    let m2 = inputs.len();
                    let mut prompts: Vec<String> = Vec::new();
                    let mut q: usize = 0;
                    while q < m2
                        invariant
                            proposals == proposed@,
                            i < n == proposals.len(),
                            j < proposals[i as int].statements@.len(),
                            inputs == &proposals[i as int].statements@[j as int].required_user_input,
                            safe == safe_statements(proposals),
                            k == statements@.len(),
                            safe[k] == proposals[i as int].statements@[j as int],
                            0 <= k < safe.len(),
                            m2 == safe[k].required_user_input@.len(),
                            q <= m2,
                            prompts@.len() == q,
                            forall|x: int|
                                0 <= x < q ==> (#[trigger] prompts@[x])@ == safe[
                                    k
                                ].required_user_input@[x].prompt@,
                        decreases m2 - q,
                    {
                        let ghost pprev = prompts@;
                        prompts.push(inputs[q].prompt.clone());
                        proof {
                            assert(prompts@ == pprev.push(prompts@.last()));
                            assert(prompts@.last()@ == safe[k].required_user_input@[q as int].prompt@);
                        }
                        q += 1;
                    }
                    proof {
                        let inp = safe[k].required_user_input@;
                        lemma_first_blocked_at(safe, k);
                        assert forall|x: int|
                            0 <= x < prompts@.len() implies #[trigger] prompts.deep_view()[x]
                            == prompts_of(inp)[x] by {
                            assert(prompts.deep_view()[x] == prompts@[x]@);
                        };
                        assert(prompts.deep_view() =~= prompts_of(inp));
                        assert forall|x: int|
                            0 <= x < statements@.len() implies #[trigger] statements.deep_view()[x]
                            == texts_of(safe.take(k))[x] by {
                            assert(statements.deep_view()[x] == statements@[x]@);
                            assert(safe.take(k)[x] == safe[x]);
                        };
                        assert(statements.deep_view() =~= texts_of(safe.take(k)));
                    }
                    return DescribePlan {
                        statements,
                        outcome: PlanOutcome::Blocked { statement, prompts },
                    };
                }
                let ghost sprev = statements@;
                statements.push(stmts[j].text.clone());
                proof {
                    assert(statements@ == sprev.push(statements@.last()));
                    assert(statements@.last()@ == safe[k].text@);
                }
                j += 1;
            }
            proof {
                assert(proposals[i as int].statements@.take(m as int) =~= proposals[
                    i as int
                ].statements@);
                assert(safe.take(statements@.len() as int) =~= done + proposals[
                    i as int
                ].statements@);
            }
        } else {
            proof {
                lemma_safe_statements_take_step(proposals, i as int);
                assert(done + Seq::<StatementProposal>::empty() =~= done);
            }
        }
        i += 1;
    }
    proof {
        assert(proposals.take(n as int) =~= proposals);
        assert(safe.take(statements@.len() as int).len() == safe.len());
        assert(statements@.len() == safe.len());
        lemma_first_blocked_at(safe, safe.len() as int);
        assert forall|x: int|
            0 <= x < statements@.len() implies #[trigger] statements.deep_view()[x] == texts_of(
            safe,
        )[x] by {
            assert(statements.deep_view()[x] == statements@[x]@);
        };
        assert(statements.deep_view() =~= texts_of(safe));
    }
    DescribePlan { statements, outcome: PlanOutcome::Retry }
}

proof fn lemma_safe_statements_take_step(ps: Seq<Proposal>, i: int)
    requires
        0 <= i < ps.len(),
    ensures
        safe_statements(ps.take(i + 1)) == safe_statements(ps.take(i)) + (
        if ps[i].confidence_x100k >= SAFE_CONFIDENCE_X100K {
            ps[i].statements@
        } else {
            Seq::<StatementProposal>::empty()
        }),
{
    assert(ps.take(i + 1).drop_last() =~= ps.take(i));
    assert(ps.take(i + 1).last() == ps[i]);
}

proof fn lemma_safe_statements_concat(a: Seq<Proposal>, b: Seq<Proposal>)
    ensures
        safe_statements(a + b) == safe_statements(a) + safe_statements(b),
    decreases b.len(),
{
    if b.len() == 0 {
        assert(a + b =~= a);
        assert(safe_statements(a) + safe_statements(b) =~= safe_statements(a));
    } else {
        lemma_safe_statements_concat(a, b.drop_last());
        assert((a + b).drop_last() =~= a + b.drop_last());
        assert((a + b).last() == b.last());
        assert(safe_statements(a + b) =~= safe_statements(a) + safe_statements(b));
    }
}

/// Validates that the server already sits at the tip of the filesystem
/// history: the last locally known migration id must equal the id the server
/// reports as its newest; both absent is an empty history and fine too. A
/// mismatch is fatal — the user must update the database first.
pub fn validate_history(local_tip: Option<&String>, server_tip: Option<&String>) -> (r: Result<
    (),
    Error,
>)
    ensures
        r is Ok <==> (match (local_tip, server_tip) {
            (Option::None, Option::None) => true,
            (Option::Some(l), Option::Some(s)) => l@ == s@,
            _ => false,
        }),
        r matches Err(e) ==> (e matches Error::HistoryMismatch { local, server } && (match (
            local,
            local_tip,
        ) {
            (Option::Some(l2), Option::Some(l)) => l2@ == l@,
            (Option::None, Option::None) => true,
            _ => false,
        }) && (match (server, server_tip) {
            (Option::Some(s2), Option::Some(s)) => s2@ == s@,
            (Option::None, Option::None) => true,
            _ => false,
        })),
{
    let matches_tip = match (local_tip, server_tip) {
        (None, None) => true,
        (Some(l), Some(s)) => l.eq(s),
        _ => false,
    };
    if matches_tip {
        Ok(())
    } else {
        let local = match local_tip {
            Some(l) => Some(l.clone()),
            None => None,
        };
        let server = match server_tip {
            Some(s) => Some(s.clone()),
            None => None,
        };
        Err(Error::HistoryMismatch { local, server })
    }
}

/// The parent id a new migration builds onto: the server's tip, or the
/// fixed initial marker when the history is empty.
pub fn parent_or_initial(tip: Option<String>) -> (r: String)
    ensures
        tip matches Some(t) ==> r == t,
        tip is None ==> r@ == "initial"@,
{
    match tip {
        Some(t) => t,
        None => initial_marker(),
    }
}

fn initial_marker() -> (r: String)
    ensures
        r@ == "initial"@,
{
    String::from_str("initial")
}

/// Counts one more describe round, failing once the bound is exhausted
/// rather than letting the loop run forever.
pub fn next_round(rounds: u64) -> (r: Result<u64, Error>)
    ensures
        rounds < MAX_DESCRIBE_ROUNDS ==> (r matches Ok(k) && k == rounds + 1),
        rounds >= MAX_DESCRIBE_ROUNDS ==> (r matches Err(e) && e is TooManyRounds),
{
    if rounds < MAX_DESCRIBE_ROUNDS {
        Ok(rounds + 1)
    } else {
        Err(Error::TooManyRounds)
    }
}

} // verus!
