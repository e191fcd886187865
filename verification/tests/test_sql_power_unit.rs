//! Self-contained checks of the `iris_query` parameter conventions.

#[test]
fn explain_requires_select_check() {
    // Mirrors the validation logic used by the explain arm: first keyword must be
    // SELECT or WITH.
    fn is_select_or_with(query: &str) -> bool {
        let first = query.split_whitespace().next().unwrap_or("").to_uppercase();
        first == "SELECT" || first == "WITH"
    }
    assert!(!is_select_or_with("INSERT INTO t VALUES (1)"));
    assert!(is_select_or_with("SELECT * FROM t"));
    assert!(is_select_or_with(
        "WITH cte AS (SELECT 1) SELECT * FROM cte"
    ));
}

#[test]
fn count_missing_target_detection() {
    // Mirrors the count-mode validation: neither table nor query provided.
    let table: Option<&str> = None;
    let query: Option<&str> = None;
    assert!(table.is_none() && query.is_none());
}

#[test]
fn mode_omitted_defaults_to_read() {
    let mode: Option<String> = None;
    assert_eq!(mode.as_deref().unwrap_or("read"), "read");
    let explicit: Option<String> = Some("read".to_string());
    assert_eq!(explicit.as_deref().unwrap_or("read"), "read");
}
