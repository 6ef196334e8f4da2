use migration_engine::hashid::Hasher;

fn id_of(parent: &str, statements: &[&str]) -> String {
    let mut h = Hasher::new(parent);
    for s in statements {
        h.source(s).unwrap();
    }
    h.make_id()
}

#[test]
fn identical_inputs_give_identical_ids() {
    let a = id_of("initial", &["CREATE TYPE X;", "CREATE TYPE Y;"]);
    let b = id_of("initial", &["CREATE TYPE X;", "CREATE TYPE Y;"]);
    assert_eq!(a, b);
}

#[test]
fn id_shape_is_stable() {
    let id = id_of("initial", &["CREATE TYPE X;"]);
    assert_eq!(id.len(), 18);
    assert!(id.starts_with("m1"));
    assert!(id[2..].chars().all(|c| c.is_ascii_hexdigit()));
}

#[test]
fn changing_one_character_changes_the_id() {
    let a = id_of("initial", &["CREATE TYPE X;"]);
    let b = id_of("initial", &["CREATE TYPE Y;"]);
    assert_ne!(a, b);
}

#[test]
fn changing_the_parent_changes_the_id() {
    let a = id_of("m1aaaa", &["CREATE TYPE X;"]);
    let b = id_of("m1bbbb", &["CREATE TYPE X;"]);
    assert_ne!(a, b);
}

#[test]
fn reordering_statements_changes_the_id() {
    let a = id_of("initial", &["CREATE TYPE X;", "CREATE TYPE Y;"]);
    let b = id_of("initial", &["CREATE TYPE Y;", "CREATE TYPE X;"]);
    assert_ne!(a, b);
}

#[test]
fn statement_boundaries_are_kept_apart() {
    // the same characters split differently must not collide
    let a = id_of("initial", &["AB", "C"]);
    let b = id_of("initial", &["A", "BC"]);
    assert_ne!(a, b);
}

#[test]
fn source_never_fails() {
    let mut h = Hasher::new("initial");
    assert!(h.source("anything at all, even unterminated").is_ok());
}
