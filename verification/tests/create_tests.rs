use migration_engine::create::CurrentMigration;
use migration_engine::create::PlanOutcome;
use migration_engine::create::Proposal;
use migration_engine::create::RequiredUserInput;
use migration_engine::create::StatementProposal;
use migration_engine::create::next_round;
use migration_engine::create::parent_or_initial;
use migration_engine::create::process_describe;
use migration_engine::create::validate_history;
use migration_engine::create::MAX_DESCRIBE_ROUNDS;
use migration_engine::errors::Error;
use migration_engine::errors::combine_results;
use migration_engine::writer::build_migration;

fn statement(text: &str) -> StatementProposal {
    StatementProposal { text: text.to_string(), required_user_input: Vec::new() }
}

#[test]
fn mismatched_history_tips_are_fatal() {
    let local = "m1".to_string();
    let server = "m2".to_string();
    match validate_history(Some(&local), Some(&server)) {
        Err(Error::HistoryMismatch { local: l, server: s }) => {
            assert_eq!(l.as_deref(), Some("m1"));
            assert_eq!(s.as_deref(), Some("m2"));
        }
        _ => panic!("expected a history mismatch"),
    }
    assert!(validate_history(Some(&local), None).is_err());
    assert!(validate_history(None, Some(&server)).is_err());
}

#[test]
fn matching_history_tips_pass() {
    let tip = "m1".to_string();
    assert!(validate_history(Some(&tip), Some(&tip.clone())).is_ok());
    assert!(validate_history(None, None).is_ok());
}

#[test]
fn confident_proposal_is_applied_then_confirmed() {
    // round one: the server proposes one statement with full confidence
    let round_one = CurrentMigration {
        confirmed: Vec::new(),
        proposed: vec![Proposal {
            statements: vec![statement("CREATE TYPE X")],
            confidence_x100k: 100000,
            prompt: None,
        }],
    };
    let plan = process_describe(round_one);
    assert_eq!(plan.statements, vec!["CREATE TYPE X".to_string()]);
    assert!(matches!(plan.outcome, PlanOutcome::Retry));

    // round two: the statement is confirmed and nothing is proposed
    let round_two = CurrentMigration {
        confirmed: vec!["CREATE TYPE X".to_string()],
        proposed: Vec::new(),
    };
    let plan2 = process_describe(round_two);
    assert!(plan2.statements.is_empty());
    let confirmed = match plan2.outcome {
        PlanOutcome::Complete(c) => c,
        _ => panic!("expected completion"),
    };
    assert_eq!(confirmed, vec!["CREATE TYPE X".to_string()]);

    // the written file holds exactly that statement inside the fixed block
    let (id, text) = build_migration(&confirmed, "m2server").unwrap();
    let expected = format!(
        "CREATE MIGRATION {}\n    ONTO m2server\n{{\n  CREATE TYPE X;\n}};\n",
        id
    );
    assert_eq!(text, expected);
}

#[test]
fn low_confidence_proposals_are_not_applied() {
    let round = CurrentMigration {
        confirmed: Vec::new(),
        proposed: vec![Proposal {
            statements: vec![statement("DROP TYPE X")],
            confidence_x100k: 50000,
            prompt: None,
        }],
    };
    let plan = process_describe(round);
    assert!(plan.statements.is_empty());
    assert!(matches!(plan.outcome, PlanOutcome::Retry));
}

#[test]
fn threshold_is_inclusive() {
    let round = CurrentMigration {
        confirmed: Vec::new(),
        proposed: vec![Proposal {
            statements: vec![statement("CREATE TYPE Z")],
            confidence_x100k: 99999,
            prompt: None,
        }],
    };
    let plan = process_describe(round);
    assert_eq!(plan.statements, vec!["CREATE TYPE Z".to_string()]);
}

#[test]
fn required_input_blocks_with_prompts_after_earlier_statements() {
    let needs_input = StatementProposal {
        text: "ALTER TYPE X { ALTER PROPERTY p SET REQUIRED }".to_string(),
        required_user_input: vec![RequiredUserInput {
            name: "fill_expr".to_string(),
            prompt: "value to use for existing objects".to_string(),
        }],
    };
    let round = CurrentMigration {
        confirmed: Vec::new(),
        proposed: vec![Proposal {
            statements: vec![statement("CREATE TYPE X"), needs_input, statement("CREATE TYPE Y")],
            confidence_x100k: 100000,
            prompt: None,
        }],
    };
    let plan = process_describe(round);
    // the statement before the blocked one is still applied first
    assert_eq!(plan.statements, vec!["CREATE TYPE X".to_string()]);
    match plan.outcome {
        PlanOutcome::Blocked { statement, prompts } => {
            assert_eq!(statement, "ALTER TYPE X { ALTER PROPERTY p SET REQUIRED }");
            assert_eq!(prompts, vec!["value to use for existing objects".to_string()]);
        }
        _ => panic!("expected the session to block on required input"),
    }
}

#[test]
fn parent_defaults_to_initial() {
    assert_eq!(parent_or_initial(None), "initial");
    assert_eq!(parent_or_initial(Some("m1abc".to_string())), "m1abc");
}

#[test]
fn round_bound_is_enforced() {
    assert!(matches!(next_round(0), Ok(1)));
    assert!(matches!(next_round(MAX_DESCRIBE_ROUNDS - 1), Ok(k) if k == MAX_DESCRIBE_ROUNDS));
    assert!(matches!(next_round(MAX_DESCRIBE_ROUNDS), Err(Error::TooManyRounds)));
}

#[test]
fn abort_failure_is_surfaced_but_never_masks_the_loop_error() {
    assert!(combine_results(Ok(()), Ok(())).is_ok());
    match combine_results(Err(Error::TooManyRounds), Ok(())) {
        Err(Error::TooManyRounds) => {}
        _ => panic!("the loop error must come through"),
    }
    match combine_results(Ok(()), Err(Error::NotImplemented)) {
        Err(Error::NotImplemented) => {}
        _ => panic!("the abort error must come through"),
    }
    match combine_results(Err(Error::TooManyRounds), Err(Error::NotImplemented)) {
        Err(Error::Combined { primary, secondary }) => {
            assert!(matches!(*primary, Error::TooManyRounds));
            assert!(matches!(*secondary, Error::NotImplemented));
        }
        _ => panic!("both failures must be surfaced together"),
    }
}
