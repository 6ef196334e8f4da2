use migration_engine::errors::Error;
use migration_engine::records::DBMigration;
use migration_engine::records::linearize_db_migrations;
use migration_engine::records::select_by_prefix;

fn rec(name: &str, parents: &[&str]) -> DBMigration {
    DBMigration {
        name: name.to_string(),
        script: String::new(),
        parent_names: parents.iter().map(|p| p.to_string()).collect(),
        generated_by: None,
    }
}

fn names(out: &[DBMigration]) -> Vec<String> {
    out.iter().map(|r| r.name.clone()).collect()
}

#[test]
fn diamond_linearizes_by_the_stack_rule() {
    // A is the root; B and C branch from A; D merges B and C.
    let input = vec![
        rec("A", &[]),
        rec("B", &["A"]),
        rec("C", &["A"]),
        rec("D", &["B", "C"]),
    ];
    let out = linearize_db_migrations(input);
    // depth first, most recently discovered child first: A's children are
    // pushed B then C, so C is explored first and D follows it.
    assert_eq!(names(&out), vec!["A", "C", "D", "B"]);
}

#[test]
fn linearization_is_reproducible() {
    let mk = || {
        vec![
            rec("A", &[]),
            rec("B", &["A"]),
            rec("C", &["A"]),
            rec("D", &["B", "C"]),
        ]
    };
    let first = names(&linearize_db_migrations(mk()));
    let second = names(&linearize_db_migrations(mk()));
    assert_eq!(first, second);
}

#[test]
fn chain_keeps_order() {
    let input = vec![rec("m1", &[]), rec("m2", &["m1"]), rec("m3", &["m2"])];
    let out = linearize_db_migrations(input);
    assert_eq!(names(&out), vec!["m1", "m2", "m3"]);
}

#[test]
fn dangling_parent_is_ignored_and_unreachable_dropped() {
    // X's parent is unknown to the set, so X is never reached from a root.
    let input = vec![rec("A", &[]), rec("X", &["ghostly"])];
    let out = linearize_db_migrations(input);
    assert_eq!(names(&out), vec!["A"]);
}

#[test]
fn later_root_is_traversed_first() {
    // roots are seeded in input order onto a stack, so the last one pops first
    let input = vec![rec("A", &[]), rec("E", &[])];
    let out = linearize_db_migrations(input);
    assert_eq!(names(&out), vec!["E", "A"]);
}

#[test]
fn empty_input_gives_empty_output() {
    let out = linearize_db_migrations(Vec::new());
    assert!(out.is_empty());
}

#[test]
fn record_helpers() {
    let r = rec("m7", &["m6"]);
    assert_eq!(r.name(), "m7");
    assert!(!r.is_root());
    assert_eq!(r.parents().len(), 1);
    assert!(rec("root", &[]).is_root());
}

#[test]
fn prefix_selection() {
    assert!(matches!(select_by_prefix(Vec::new(), "m1"), Ok(None)));
    let one = vec![rec("m1abc", &[])];
    match select_by_prefix(one, "m1") {
        Ok(Some(m)) => assert_eq!(m.name, "m1abc"),
        _ => panic!("expected the single match"),
    }
    let two = vec![rec("m1abc", &[]), rec("m1abd", &[])];
    match select_by_prefix(two, "m1ab") {
        Err(Error::AmbiguousPrefix { prefix }) => assert_eq!(prefix, "m1ab"),
        _ => panic!("expected an ambiguity error"),
    }
}
