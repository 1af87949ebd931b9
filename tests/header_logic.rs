use table_merge::compat::headers_are_compatible;
use table_merge::header::merge_headers;
use table_merge::naming::generate_header_hash;
use table_merge::remap::map_rows_to_header;

fn names(items: &[&str]) -> Vec<String> {
    items.iter().map(|s| s.to_string()).collect()
}

#[test]
fn test_generate_header_hash() {
    let header1 = vec!["Name".to_string(), "Age".to_string(), "City".to_string()];
    let header2 = vec!["Name".to_string(), "Age".to_string(), "City".to_string()];
    let header3 = vec!["Name".to_string(), "Age".to_string()];

    let hash1 = generate_header_hash(&header1);
    let hash2 = generate_header_hash(&header2);
    let hash3 = generate_header_hash(&header3);

    assert_eq!(hash1, hash2);
    assert_ne!(hash1, hash3);
    assert!(hash1.chars().all(|c| c.is_ascii_hexdigit()));
}

#[test]
fn test_headers_are_compatible_exact_match() {
    let header1 = vec!["Name".to_string(), "Age".to_string()];
    let header2 = vec!["Name".to_string(), "Age".to_string()];

    assert!(headers_are_compatible(&header1, &header2));
}

#[test]
fn test_headers_are_compatible_superset() {
    let header1 = vec!["Name".to_string(), "Age".to_string()];
    let header2 = vec!["Name".to_string(), "Age".to_string(), "City".to_string()];

    assert!(headers_are_compatible(&header1, &header2));
}

#[test]
fn test_headers_are_compatible_partial_overlap() {
    let header1 = vec!["Name".to_string(), "Age".to_string(), "City".to_string()];
    let header2 = vec!["Name".to_string(), "Age".to_string(), "Country".to_string()];

    assert!(headers_are_compatible(&header1, &header2));
}

#[test]
fn test_headers_are_not_compatible() {
    let header1 = vec!["Name".to_string(), "Age".to_string()];
    let header2 = vec!["Product".to_string(), "Price".to_string()];

    assert!(!headers_are_compatible(&header1, &header2));
}

#[test]
fn test_headers_are_not_compatible_low_overlap() {
    let header1 = vec!["Name".to_string(), "Age".to_string(), "City".to_string()];
    let header2 = vec!["Name".to_string(), "Product".to_string(), "Price".to_string()];

    assert!(!headers_are_compatible(&header1, &header2));
}

#[test]
fn test_merge_headers_identical() {
    let headers = vec![
        vec!["Name".to_string(), "Age".to_string()],
        vec!["Name".to_string(), "Age".to_string()],
    ];

    let merged = merge_headers(&headers);
    assert_eq!(merged, vec!["Name", "Age"]);
}

#[test]
fn test_merge_headers_superset() {
    let headers = vec![
        vec!["Name".to_string(), "Age".to_string()],
        vec!["Name".to_string(), "Age".to_string(), "City".to_string()],
    ];

    let merged = merge_headers(&headers);
    assert_eq!(merged, vec!["Name", "Age", "City"]);
}

#[test]
fn test_merge_headers_different_order() {
    let headers = vec![
        vec!["Name".to_string(), "Age".to_string(), "City".to_string()],
        vec!["Age".to_string(), "Name".to_string(), "Country".to_string()],
    ];

    let merged = merge_headers(&headers);
    assert_eq!(merged, vec!["Name", "Age", "City", "Country"]);
}

#[test]
fn test_map_rows_to_header_same_headers() {
    let old_header = vec!["Name".to_string(), "Age".to_string()];
    let new_header = vec!["Name".to_string(), "Age".to_string()];
    let rows = vec![
        vec!["Alice".to_string(), "30".to_string()],
        vec!["Bob".to_string(), "25".to_string()],
    ];

    let mapped = map_rows_to_header(&old_header, &new_header, &rows);

    assert_eq!(mapped.len(), 2);
    assert_eq!(mapped[0], vec!["Alice", "30"]);
    assert_eq!(mapped[1], vec!["Bob", "25"]);
}

#[test]
fn test_map_rows_to_header_with_new_columns() {
    let old_header = vec!["Name".to_string(), "Age".to_string()];
    let new_header = vec!["Name".to_string(), "Age".to_string(), "City".to_string()];
    let rows = vec![
        vec!["Alice".to_string(), "30".to_string()],
        vec!["Bob".to_string(), "25".to_string()],
    ];

    let mapped = map_rows_to_header(&old_header, &new_header, &rows);

    assert_eq!(mapped.len(), 2);
    assert_eq!(mapped[0], vec!["Alice", "30", ""]);
    assert_eq!(mapped[1], vec!["Bob", "25", ""]);
}

#[test]
fn test_map_rows_to_header_reordered_columns() {
    let old_header = vec!["Name".to_string(), "Age".to_string(), "City".to_string()];
    let new_header = vec!["City".to_string(), "Name".to_string(), "Age".to_string()];
    let rows = vec![vec!["Alice".to_string(), "30".to_string(), "NYC".to_string()]];

    let mapped = map_rows_to_header(&old_header, &new_header, &rows);

    assert_eq!(mapped.len(), 1);
    assert_eq!(mapped[0], vec!["NYC", "Alice", "30"]);
}

#[test]
fn test_map_rows_to_header_mixed_columns() {
    let old_header = vec!["Name".to_string(), "Age".to_string()];
    let new_header = vec![
        "Name".to_string(),
        "Age".to_string(),
        "City".to_string(),
        "Country".to_string(),
    ];
    let rows = vec![vec!["Alice".to_string(), "30".to_string()]];

    let mapped = map_rows_to_header(&old_header, &new_header, &rows);

    assert_eq!(mapped.len(), 1);
    assert_eq!(mapped[0], vec!["Alice", "30", "", ""]);
}

#[test]
fn compatibility_is_symmetric_on_examples() {
    let pairs = [
        (names(&["Name", "Age"]), names(&["Name", "Age", "City"])),
        (names(&["A", "B", "C"]), names(&["A", "D", "E", "F"])),
        (names(&["A", "A", "B"]), names(&["B"])),
        (names(&[]), names(&["A"])),
    ];
    for (a, b) in pairs.iter() {
        assert_eq!(headers_are_compatible(a, b), headers_are_compatible(b, a));
    }
}

#[test]
fn identical_headers_are_compatible() {
    let h = names(&["X", "Y", "Z", "X"]);
    assert!(headers_are_compatible(&h, &h));
}

#[test]
fn empty_headers_are_never_compatible() {
    let empty = names(&[]);
    assert!(!headers_are_compatible(&empty, &empty));
    assert!(!headers_are_compatible(&empty, &names(&["A"])));
}

#[test]
fn duplicate_names_count_once() {
    // {A,B} against {A,C}: one shared of three names.
    assert!(!headers_are_compatible(&names(&["A", "A", "A", "B"]), &names(&["A", "C"])));
    // {A,B} against {A}: one shared of two names.
    assert!(headers_are_compatible(&names(&["A", "B", "B"]), &names(&["A", "A"])));
}

#[test]
fn compatibility_threshold_is_one_half() {
    // 2 shared of 4 names: exactly one half.
    assert!(headers_are_compatible(&names(&["A", "B", "C"]), &names(&["A", "B", "D"])));
    // 2 shared of 5 names.
    assert!(!headers_are_compatible(&names(&["A", "B", "C", "E"]), &names(&["A", "B", "D"])));
}

#[test]
fn merge_of_one_header_drops_repeats() {
    let merged = merge_headers(&[names(&["B", "A", "B", "C", "A"])]);
    assert_eq!(merged, vec!["B", "A", "C"]);
}

#[test]
fn merge_of_nothing_is_empty() {
    let merged = merge_headers(&[]);
    assert!(merged.is_empty());
}

#[test]
fn remap_to_own_header_keeps_rows() {
    let h = names(&["A", "B", "C"]);
    let rows = vec![names(&["1", "2", "3"]), names(&["x", "", "z"])];
    assert_eq!(map_rows_to_header(&h, &h, &rows), rows);
}

#[test]
fn remap_takes_last_of_repeated_names() {
    let old = names(&["A", "A"]);
    let rows = vec![names(&["first", "second"])];
    let mapped = map_rows_to_header(&old, &names(&["A"]), &rows);
    assert_eq!(mapped, vec![vec!["second"]]);
}

#[test]
fn remap_pads_short_rows_and_drops_extra_cells() {
    let old = names(&["A", "B", "C"]);
    let new = names(&["C", "A"]);
    let rows = vec![names(&["1"]), names(&[]), names(&["1", "2", "3", "4"])];
    let mapped = map_rows_to_header(&old, &new, &rows);
    assert_eq!(mapped.len(), 3);
    for row in mapped.iter() {
        assert_eq!(row.len(), 2);
    }
    assert_eq!(mapped[0], vec!["", "1"]);
    assert_eq!(mapped[1], vec!["", ""]);
    assert_eq!(mapped[2], vec!["3", "1"]);
}

#[test]
fn header_hash_depends_on_column_order() {
    let h1 = names(&["Name", "Age"]);
    let h2 = names(&["Age", "Name"]);
    assert_ne!(generate_header_hash(&h1), generate_header_hash(&h2));
    assert_eq!(generate_header_hash(&h1).len(), 16);
}
