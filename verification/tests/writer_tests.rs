use migration_engine::writer::build_migration;
use migration_engine::writer::migration_filename;
use migration_engine::writer::temp_filename;

#[test]
fn filenames_are_zero_padded_to_five_digits() {
    assert_eq!(migration_filename(1), "00001.edgeql");
    assert_eq!(migration_filename(42), "00042.edgeql");
    assert_eq!(migration_filename(99999), "99999.edgeql");
    assert_eq!(migration_filename(100000), "100000.edgeql");
    assert_eq!(migration_filename(0), "00000.edgeql");
}

#[test]
fn temp_name_is_a_hidden_sibling() {
    assert_eq!(temp_filename("00001.edgeql"), ".~00001.edgeql.tmp");
}

#[test]
fn single_statement_body() {
    let confirmed = vec!["CREATE TYPE X".to_string()];
    let (id, text) = build_migration(&confirmed, "initial").unwrap();
    let expected = format!(
        "CREATE MIGRATION {}\n    ONTO initial\n{{\n  CREATE TYPE X;\n}};\n",
        id
    );
    assert_eq!(text, expected);
}

#[test]
fn multi_line_statements_keep_their_own_lines_indented() {
    let confirmed = vec![
        "CREATE TYPE X {\n  CREATE PROPERTY a;\n}".to_string(),
        "CREATE TYPE Y".to_string(),
    ];
    let (id, text) = build_migration(&confirmed, "m1parent").unwrap();
    let expected = format!(
        "CREATE MIGRATION {}\n    ONTO m1parent\n{{\n  CREATE TYPE X {{\n    CREATE PROPERTY a;\n  }};\n  CREATE TYPE Y;\n}};\n",
        id
    );
    assert_eq!(text, expected);
}

#[test]
fn body_id_matches_hasher_over_terminated_statements() {
    let confirmed = vec!["CREATE TYPE X".to_string()];
    let (id, _text) = build_migration(&confirmed, "initial").unwrap();
    let mut h = migration_engine::hashid::Hasher::new("initial");
    h.source("CREATE TYPE X;").unwrap();
    assert_eq!(id, h.make_id());
}

#[test]
fn empty_confirmed_list_gives_empty_block() {
    let confirmed: Vec<String> = Vec::new();
    let (id, text) = build_migration(&confirmed, "initial").unwrap();
    let expected = format!("CREATE MIGRATION {}\n    ONTO initial\n{{\n}};\n", id);
    assert_eq!(text, expected);
}
