use iris_agentic_dev::cmd::query::query_output;
use iris_agentic_dev::cmd::tsv::{
    extract_columns, extract_rows, rows_to_tsv, tsv_header, Cell, ContentItem, QueryBody,
};

/// Build an Atelier-shaped body matching the real /action/query response format:
/// result.content = array of row-objects with column names as keys (in the
/// key order of a JSON map, which sorts its keys).
fn make_atelier_body(columns: &[&str], rows: &[Vec<&str>]) -> QueryBody {
    let content: Vec<ContentItem> = rows
        .iter()
        .map(|row| {
            let mut fields: Vec<(String, Cell)> = columns
                .iter()
                .zip(row.iter())
                .map(|(col, val)| (col.to_string(), Cell::Text(val.to_string())))
                .collect();
            fields.sort_by(|a, b| a.0.cmp(&b.0));
            ContentItem::Object(fields)
        })
        .collect();
    QueryBody { content: Some(content) }
}

#[test]
fn test_extract_columns_single() {
    let body = make_atelier_body(&["Name"], &[vec!["Alice"]]);
    let cols = extract_columns(&body);
    assert_eq!(cols, vec!["Name"]);
}

#[test]
fn test_extract_columns_multi() {
    // JSON maps sort keys alphabetically
    let body = make_atelier_body(&["Age", "City", "Name"], &[vec!["30", "NYC", "Alice"]]);
    let cols = extract_columns(&body);
    // Columns sorted: Age, City, Name
    assert_eq!(cols, vec!["Age", "City", "Name"]);
}

#[test]
fn test_extract_columns_empty_body() {
    // `{}`: no result.content at all
    let body = QueryBody { content: None };
    let cols = extract_columns(&body);
    assert!(cols.is_empty());
}

#[test]
fn test_extract_rows_basic() {
    // Use single-column to avoid ordering ambiguity
    let body = make_atelier_body(&["Name"], &[vec!["Alice"], vec!["Bob"]]);
    let rows = extract_rows(&body);
    assert_eq!(rows.len(), 2);
    assert_eq!(rows[0], vec!["Alice"]);
    assert_eq!(rows[1], vec!["Bob"]);
}

#[test]
fn test_extract_rows_zero_rows() {
    // Zero rows = empty content array; no column info available
    let body = QueryBody { content: Some(vec![]) };
    let rows = extract_rows(&body);
    assert!(rows.is_empty());
}

#[test]
fn test_full_tsv_pipeline_multicolumn() {
    // Single column avoids key-ordering ambiguity
    let body = make_atelier_body(&["Name"], &[vec!["Alice"], vec!["Bob"]]);
    let cols = extract_columns(&body);
    let col_refs: Vec<&str> = cols.iter().map(|s| s.as_str()).collect();
    let header = tsv_header(&col_refs);
    let rows = extract_rows(&body);
    let data = rows_to_tsv(&rows);
    let full = format!("{}\n{}", header, data);
    assert_eq!(full, "Name\nAlice\nBob\n");
}

#[test]
fn test_tsv_two_columns_consistent_order() {
    // Column order in header and row values must be consistent (both from the same key order)
    let body = make_atelier_body(&["Age", "Name"], &[vec!["30", "Alice"]]);
    let cols = extract_columns(&body);
    let rows = extract_rows(&body);
    // Find which col is at index 0
    let name_idx = cols.iter().position(|c| c == "Name").unwrap();
    let age_idx = cols.iter().position(|c| c == "Age").unwrap();
    assert_eq!(rows[0][name_idx], "Alice");
    assert_eq!(rows[0][age_idx], "30");
}

#[test]
fn test_tsv_zero_rows_produces_header_only() {
    // When rows exist, header comes from first row keys
    let body = make_atelier_body(&["Name"], &[vec!["Alice"]]);
    let cols = extract_columns(&body);
    let col_refs: Vec<&str> = cols.iter().map(|s| s.as_str()).collect();
    let header = tsv_header(&col_refs);
    assert_eq!(header, "Name");
}

#[test]
fn test_no_spurious_framing_in_output() {
    let body = make_atelier_body(&["Val"], &[vec!["42"]]);
    let cols = extract_columns(&body);
    let col_refs: Vec<&str> = cols.iter().map(|s| s.as_str()).collect();
    let header = tsv_header(&col_refs);
    let rows = extract_rows(&body);
    let data = rows_to_tsv(&rows);
    let out = format!("{}\n{}", header, data);
    assert!(!out.contains("Result:"));
    assert!(!out.contains("┌"));
    assert!(!out.contains("│"));
    for line in out.lines() {
        assert!(line.chars().all(|c| c != '\u{2502}' && c != '\u{250C}'));
    }
}

// ---------------------------------------------------------------------------
// Further cases
// ---------------------------------------------------------------------------

fn obj(fields: Vec<(&str, Cell)>) -> ContentItem {
    ContentItem::Object(fields.into_iter().map(|(k, v)| (k.to_string(), v)).collect())
}

#[test]
fn cells_of_other_json_types() {
    let body = QueryBody {
        content: Some(vec![obj(vec![
            ("A", Cell::Other("30".to_string())),
            ("B", Cell::Null),
            ("C", Cell::Other("true".to_string())),
            ("D", Cell::Text("x".to_string())),
        ])]),
    };
    let rows = extract_rows(&body);
    assert_eq!(rows, vec![vec!["30", "", "true", "x"]]);
}

#[test]
fn missing_keys_give_empty_cells_and_extra_keys_are_ignored() {
    let body = QueryBody {
        content: Some(vec![
            obj(vec![("A", Cell::Text("1".to_string())), ("B", Cell::Text("2".to_string()))]),
            obj(vec![("B", Cell::Text("3".to_string())), ("Z", Cell::Text("9".to_string()))]),
        ]),
    };
    assert_eq!(extract_columns(&body), vec!["A", "B"]);
    assert_eq!(extract_rows(&body), vec![vec!["1", "2"], vec!["", "3"]]);
}

#[test]
fn non_object_items_are_skipped() {
    let body = QueryBody {
        content: Some(vec![
            obj(vec![("A", Cell::Text("1".to_string()))]),
            ContentItem::NotObject,
            obj(vec![("A", Cell::Text("2".to_string()))]),
        ]),
    };
    assert_eq!(extract_rows(&body), vec![vec!["1"], vec!["2"]]);
}

#[test]
fn first_item_not_an_object_gives_no_columns() {
    let body = QueryBody {
        content: Some(vec![ContentItem::NotObject, obj(vec![("A", Cell::Text("1".to_string()))])]),
    };
    assert!(extract_columns(&body).is_empty());
    // the object still yields a row, with no cells
    assert_eq!(extract_rows(&body), vec![Vec::<String>::new()]);
    assert_eq!(query_output(&body), "");
}

#[test]
fn query_output_header_then_rows() {
    let body = make_atelier_body(&["Age", "Name"], &[vec!["30", "Al\tice"], vec!["25", "Bob"]]);
    assert_eq!(query_output(&body), "Age\tName\n30\tAl\\tice\n25\tBob\n");
}

#[test]
fn query_output_of_empty_content_is_empty() {
    assert_eq!(query_output(&QueryBody { content: Some(vec![]) }), "");
    assert_eq!(query_output(&QueryBody { content: None }), "");
}

#[test]
fn rows_line_up_with_columns() {
    // concrete instance of the rows-follow-columns law
    let body = make_atelier_body(&["C", "A", "B"], &[vec!["c1", "a1", "b1"], vec!["c2", "a2", "b2"]]);
    let cols = extract_columns(&body);
    let rows = extract_rows(&body);
    for row in &rows {
        assert_eq!(row.len(), cols.len());
        for (col, cell) in cols.iter().zip(row.iter()) {
            assert_eq!(cell.to_lowercase().chars().next(), col.to_lowercase().chars().next());
        }
    }
}

#[test]
fn columns_are_distinct_for_json_objects() {
    let body = make_atelier_body(&["B", "A", "C"], &[vec!["1", "2", "3"], vec!["4", "5", "6"]]);
    let cols = extract_columns(&body);
    let mut sorted = cols.clone();
    sorted.dedup();
    assert_eq!(sorted, cols);
    // keys only present in later rows are ignored
    let body = QueryBody {
        content: Some(vec![
            obj(vec![("A", Cell::Other("1".to_string()))]),
            obj(vec![("B", Cell::Other("2".to_string()))]),
        ]),
    };
    assert_eq!(extract_columns(&body), vec!["A"]);
}
