//! The engine's incremental behavior: determinism, memoization, early
//! cutoff and invalidation, observed through the recompute counter.

use sqt_db::{Database, Inputs, QueryKey, Semantic, Syntax};

fn s(x: &str) -> String {
    String::from(x)
}

fn users_and_orders() -> Database {
    let mut db = Database::default();
    db.set_file_text(s("models/users.sql"), s("SELECT id FROM t"));
    db.set_file_text(
        s("models/orders.sql"),
        s("SELECT * FROM x JOIN {{ ref('users') }}"),
    );
    db.set_all_files(vec![s("models/users.sql"), s("models/orders.sql")]);
    db
}

#[test]
fn determinism_and_zero_recompute_on_second_read() {
    let mut db = users_and_orders();
    let key = QueryKey::ModelRefs(s("models/orders.sql"));
    let r1 = db.model_refs(s("models/orders.sql"));
    let c1 = db.recompute_count(&key);
    let r2 = db.model_refs(s("models/orders.sql"));
    let c2 = db.recompute_count(&key);
    assert_eq!(r1, r2);
    assert_eq!(r1, vec![s("users")]);
    assert_eq!(c1, 1);
    assert_eq!(c2, 1);
}

#[test]
fn memoization_at_most_one_recompute_per_query() {
    let mut db = users_and_orders();
    for _ in 0..3 {
        db.parse_model(s("models/users.sql"));
        db.all_models();
        db.resolve_ref(s("users"));
        db.file_diagnostics(s("models/orders.sql"));
    }
    assert_eq!(db.recompute_count(&QueryKey::ParseModel(s("models/users.sql"))), 1);
    assert_eq!(db.recompute_count(&QueryKey::AllModels), 1);
    assert_eq!(db.recompute_count(&QueryKey::ResolveRef(s("users"))), 1);
    assert_eq!(
        db.recompute_count(&QueryKey::FileDiagnostics(s("models/orders.sql"))),
        1
    );
}

#[test]
fn early_cutoff_leaves_downstream_diagnostics_cached() {
    let mut db = users_and_orders();
    let diag_key = QueryKey::FileDiagnostics(s("models/orders.sql"));
    let d1 = db.file_diagnostics(s("models/orders.sql"));
    assert!(d1.is_empty());
    let c1 = db.recompute_count(&diag_key);
    assert_eq!(c1, 1);

    // a different but still-valid SELECT text: the model value is unchanged
    db.set_file_text(s("models/users.sql"), s("SELECT name FROM t2"));

    let d2 = db.file_diagnostics(s("models/orders.sql"));
    assert!(d2.is_empty());
    let c2 = db.recompute_count(&diag_key);
    assert_eq!(c2, c1);

    // the upstream parse really did rerun, but its value was unchanged, so
    // the registry and everything downstream of it were reused
    assert_eq!(db.recompute_count(&QueryKey::ParseModel(s("models/users.sql"))), 2);
    assert_eq!(db.recompute_count(&QueryKey::AllModels), 1);
    assert_eq!(db.recompute_count(&QueryKey::ResolveRef(s("users"))), 1);
}

#[test]
fn invalidation_propagates_to_registry_and_resolution() {
    let mut db = users_and_orders();
    assert_eq!(
        db.resolve_ref(s("users")),
        Some(s("models/users.sql"))
    );
    db.set_file_text(s("models/users.sql"), s("no query here"));
    let models = db.all_models();
    assert!(models.iter().all(|m| m.name != "users"));
    assert_eq!(models.len(), 1);
    assert_eq!(db.resolve_ref(s("users")), None);
}

#[test]
fn writes_create_and_overwrite_cells() {
    let mut db = Database::default();
    assert!(db.file_text(&s("a.sql")).is_err());
    db.set_file_text(s("a.sql"), s(""));
    assert_eq!(db.file_text(&s("a.sql")).unwrap(), s(""));
    db.set_file_text(s("a.sql"), s("SELECT 1"));
    assert_eq!(db.file_text(&s("a.sql")).unwrap(), s("SELECT 1"));
    assert!(db.all_files().is_empty());
    db.set_all_files(vec![s("a.sql")]);
    assert_eq!(db.all_files(), vec![s("a.sql")]);
}

#[test]
fn write_to_another_file_never_invalidates_per_file_queries() {
    let mut db = users_and_orders();
    let refs_key = QueryKey::ModelRefs(s("models/orders.sql"));
    let parse_key = QueryKey::ParseModel(s("models/orders.sql"));
    db.model_refs(s("models/orders.sql"));
    db.parse_model(s("models/orders.sql"));
    db.set_file_text(s("models/users.sql"), s("something else entirely"));
    db.model_refs(s("models/orders.sql"));
    db.parse_model(s("models/orders.sql"));
    assert_eq!(db.recompute_count(&refs_key), 1);
    assert_eq!(db.recompute_count(&parse_key), 1);
}

#[test]
fn counter_starts_at_zero_before_any_read() {
    let db = Database::default();
    assert_eq!(db.recompute_count(&QueryKey::AllModels), 0);
}
