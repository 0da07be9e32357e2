//! End-to-end scenarios over the derived queries: extraction, the registry,
//! resolution and diagnostics, and the error cases.

use sqt_db::{Database, DbError, DiagnosticSeverity, Inputs, Semantic, Syntax};

fn s(x: &str) -> String {
    String::from(x)
}

#[test]
fn scenario_valid_model_with_resolved_reference() {
    let mut db = Database::default();
    db.set_file_text(s("models/users.sql"), s("SELECT id FROM t"));
    db.set_file_text(
        s("models/orders.sql"),
        s("SELECT * FROM x JOIN {{ ref('users') }}"),
    );
    db.set_all_files(vec![s("models/users.sql"), s("models/orders.sql")]);

    assert_eq!(db.model_refs(s("models/orders.sql")), vec![s("users")]);
    assert_eq!(db.resolve_ref(s("users")), Some(s("models/users.sql")));
    assert!(db.file_diagnostics(s("models/orders.sql")).is_empty());
}

#[test]
fn scenario_undefined_reference_reports_one_error() {
    let mut db = Database::default();
    db.set_file_text(
        s("models/orders.sql"),
        s("SELECT * FROM x JOIN {{ ref('missing') }}"),
    );
    db.set_all_files(vec![s("models/orders.sql")]);

    let diags = db.file_diagnostics(s("models/orders.sql"));
    assert_eq!(diags.len(), 1);
    assert_eq!(diags[0].severity, DiagnosticSeverity::Error);
    assert_eq!(diags[0].message, "Undefined model reference: 'missing'");
    assert_eq!((diags[0].line, diags[0].column), (0, 0));
}

#[test]
fn scenario_non_model_outside_models_dir_is_silent() {
    let mut db = Database::default();
    db.set_file_text(s("util.sql"), s("no query here"));
    db.set_all_files(vec![s("util.sql")]);

    assert!(db.parse_model(s("util.sql")).is_none());
    assert!(db.file_diagnostics(s("util.sql")).is_empty());
}

#[test]
fn scenario_non_model_under_models_dir_warns() {
    let mut db = Database::default();
    db.set_file_text(s("models/broken.sql"), s("no query here"));
    db.set_all_files(vec![s("models/broken.sql")]);

    let diags = db.file_diagnostics(s("models/broken.sql"));
    assert_eq!(diags.len(), 1);
    assert_eq!(diags[0].severity, DiagnosticSeverity::Warning);
    assert_eq!(diags[0].message, "File does not contain a valid SQL query");
}

#[test]
fn warning_requires_a_directory_component_named_models() {
    let mut db = Database::default();
    db.set_file_text(s("x_models/broken.sql"), s("no query here"));
    db.set_file_text(s("nested/models/broken.sql"), s("no query here"));
    db.set_all_files(vec![s("x_models/broken.sql"), s("nested/models/broken.sql")]);

    // a directory that merely ends in "models" does not count
    assert!(db.file_diagnostics(s("x_models/broken.sql")).is_empty());
    // a directory literally named "models" counts anywhere in the path
    assert_eq!(db.file_diagnostics(s("nested/models/broken.sql")).len(), 1);
}

#[test]
fn scenario_marker_without_any_closing_sequence_truncates() {
    let mut db = Database::default();
    // the first marker never closes: extraction stops there entirely
    db.set_file_text(s("a.sql"), s("{{ ref('users }} and more text"));
    assert!(db.model_refs(s("a.sql")).is_empty());

    // names found before the unterminated marker are kept
    db.set_file_text(s("b.sql"), s("{{ ref('one') }} then {{ ref('two"));
    assert_eq!(db.model_refs(s("b.sql")), vec![s("one")]);
}

#[test]
fn scenario_first_marker_without_its_own_closing_truncates() {
    let mut db = Database::default();
    // the first marker's own closing is missing — the next closing sequence
    // belongs to the second marker, which opens before it — so extraction
    // stops at the first marker and nothing is emitted
    db.set_file_text(s("a.sql"), s("{{ ref('users' }} {{ ref('orders') }}"));
    assert!(db.model_refs(s("a.sql")).is_empty());
}

#[test]
fn parse_model_derives_name_from_path_stem() {
    let mut db = Database::default();
    db.set_file_text(s("models/users.sql"), s("select lower case works"));
    let m = db.parse_model(s("models/users.sql")).unwrap();
    assert_eq!(m.name, "users");
    assert_eq!(m.path, "models/users.sql");

    db.set_file_text(s("noext"), s("SELECT 1"));
    let m2 = db.parse_model(s("noext")).unwrap();
    assert_eq!(m2.name, "noext");
}

#[test]
fn duplicate_references_are_preserved_in_order() {
    let mut db = Database::default();
    db.set_file_text(
        s("m.sql"),
        s("{{ ref('a') }} {{ ref('b') }} {{ ref('a') }}"),
    );
    assert_eq!(db.model_refs(s("m.sql")), vec![s("a"), s("b"), s("a")]);
}

#[test]
fn registry_holds_each_path_once_and_resolution_takes_file_order() {
    let mut db = Database::default();
    db.set_file_text(s("models/one.sql"), s("SELECT 1"));
    db.set_file_text(s("other/one.sql"), s("SELECT 2"));
    // one path listed twice, and two files defining the same model name
    db.set_all_files(vec![
        s("models/one.sql"),
        s("models/one.sql"),
        s("other/one.sql"),
    ]);

    let models = db.all_models();
    assert_eq!(models.len(), 2);
    assert_eq!(models[0].path, "models/one.sql");
    assert_eq!(models[1].path, "other/one.sql");
    // ties resolve to the first defining path in file-set order
    assert_eq!(db.resolve_ref(s("one")), Some(s("models/one.sql")));
}

#[test]
fn file_text_of_unwritten_path_is_not_found() {
    let db = Database::default();
    assert_eq!(db.file_text(&s("nope.sql")), Err(DbError::NotFound));
}

#[test]
fn empty_text_is_distinct_from_unwritten() {
    let mut db = Database::default();
    db.set_file_text(s("e.sql"), s(""));
    assert_eq!(db.file_text(&s("e.sql")), Ok(s("")));
    assert!(db.parse_model(s("e.sql")).is_none());
    assert!(db.model_refs(s("e.sql")).is_empty());
}
