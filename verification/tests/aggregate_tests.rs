use migration_engine::aggregate::aggregate;
use migration_engine::aggregate::is_schema_file_name;
use migration_engine::errors::Error;
use migration_engine::preparser::check_chunk_complete;
use migration_engine::sourcemap::SourceName;

fn files(v: &[(&str, &str)]) -> Vec<(String, String)> {
    v.iter().map(|(a, b)| (a.to_string(), b.to_string())).collect()
}

#[test]
fn aggregate_line_counts_and_map() {
    let input = files(&[("a.esdl", "type A;\n"), ("b.esdl", "type B {\n  x;\n};")]);
    let (text, map) = aggregate(&input).unwrap();
    assert_eq!(
        text,
        "START MIGRATION TO {\ntype A;\ntype B {\n  x;\n};\n};\n"
    );
    // one line for each input line plus the two synthetic wrapper lines
    assert_eq!(text.lines().count(), 1 + 3 + 2);
    // wrapper lines resolve to the synthetic sources
    assert!(matches!(map.translate(1), Some((SourceName::Prefix, 1))));
    assert!(matches!(map.translate(6), Some((SourceName::Suffix, 1))));
    // every file line resolves to its file and original line
    match map.translate(2) {
        Some((SourceName::File(p), orig)) => {
            assert_eq!(p, "a.esdl");
            assert_eq!(orig, 1);
        }
        other => panic!("line 2 resolved wrongly: {:?}", other.is_some()),
    }
    match map.translate(4) {
        Some((SourceName::File(p), orig)) => {
            assert_eq!(p, "b.esdl");
            assert_eq!(orig, 2);
        }
        other => panic!("line 4 resolved wrongly: {:?}", other.is_some()),
    }
    assert!(map.translate(7).is_none());
    assert!(map.translate(0).is_none());
}

#[test]
fn aggregate_empty_input() {
    let input = files(&[]);
    let (text, _map) = aggregate(&input).unwrap();
    assert_eq!(text, "START MIGRATION TO {\n};\n");
    assert_eq!(text.lines().count(), 2);
}

#[test]
fn incomplete_trailing_statement_names_file() {
    let input = files(&[("ok.esdl", "type A;\n"), ("bad.esdl", "type B {\n  x;\n}")]);
    match aggregate(&input) {
        Err(Error::IncompleteSchema { path }) => assert_eq!(path, "bad.esdl"),
        _ => panic!("expected an incomplete-schema error"),
    }
}

#[test]
fn terminated_statement_with_trailing_whitespace_succeeds() {
    let input = files(&[("a.esdl", "type A;  \n\n")]);
    assert!(aggregate(&input).is_ok());
}

#[test]
fn preparser_respects_nested_structure() {
    assert!(check_chunk_complete(""));
    assert!(check_chunk_complete("   \n"));
    assert!(check_chunk_complete("type A;"));
    assert!(!check_chunk_complete("type A"));
    assert!(check_chunk_complete("type A; # trailing comment"));
    assert!(!check_chunk_complete("type B { x; }"));
    assert!(check_chunk_complete("type B { x; };"));
    // a semicolon inside a string does not end the statement
    assert!(!check_chunk_complete("select ';'"));
    assert!(check_chunk_complete("select ';';"));
    // a semicolon inside a comment does not end the statement
    assert!(!check_chunk_complete("select x # done;\n"));
    assert!(check_chunk_complete("select x # not yet\n;"));
    // an escaped quote keeps the string open
    assert!(!check_chunk_complete("select 'a\\';"));
    assert!(check_chunk_complete("select 'a\\'b';"));
}

#[test]
fn schema_file_name_filter() {
    assert!(is_schema_file_name("default.esdl"));
    assert!(!is_schema_file_name(".hidden.esdl"));
    assert!(!is_schema_file_name("notes.txt"));
    assert!(!is_schema_file_name("esdl"));
    assert!(!is_schema_file_name(".esdl"));
    assert!(is_schema_file_name("a.esdl"));
}
