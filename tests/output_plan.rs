use table_merge::combine::combine_tables;
use table_merge::grouping::group_headers;
use table_merge::naming::{generate_header_hash, name_for_digest, output_file_name};
use table_merge::source::{format_of_lowercase, get_file_contents, is_path_valid, ContentError, SourceFormat};

fn names(items: &[&str]) -> Vec<String> {
    items.iter().map(|s| s.to_string()).collect()
}

fn table(rows: &[&[&str]]) -> Vec<Vec<String>> {
    rows.iter().map(|r| names(r)).collect()
}

#[test]
fn superset_headers_combine_into_one_output() {
    let tables = vec![
        table(&[&["Name", "Age"], &["Alice", "30"]]),
        table(&[&["Name", "Age", "City"], &["Bob", "25", "Paris"]]),
    ];
    let out = combine_tables(&tables);
    assert_eq!(out.len(), 1);
    assert_eq!(out[0].header, vec!["Name", "Age", "City"]);
    assert_eq!(out[0].rows, vec![vec!["Alice", "30", ""], vec!["Bob", "25", "Paris"]]);
    assert!(out[0].name.starts_with("combined_"));
    assert!(out[0].name.ends_with(".csv"));
}

#[test]
fn disjoint_headers_give_two_single_outputs() {
    let tables = vec![
        table(&[&["Name", "Age"], &["Alice", "30"]]),
        table(&[&["Product", "Price"], &["Widget", "10.99"]]),
    ];
    let out = combine_tables(&tables);
    assert_eq!(out.len(), 2);
    assert_eq!(out[0].header, vec!["Name", "Age"]);
    assert_eq!(out[1].header, vec!["Product", "Price"]);
    assert_eq!(out[0].rows, vec![vec!["Alice", "30"]]);
    assert_eq!(out[1].rows, vec![vec!["Widget", "10.99"]]);
    assert!(out[0].name.starts_with("single_"));
    assert!(out[1].name.starts_with("single_"));
    assert_ne!(out[0].name, out[1].name);
}

#[test]
fn identical_headers_concatenate_in_order() {
    let tables = vec![
        table(&[&["A", "B", "C"], &["1", "2", "3"]]),
        table(&[&["A", "B", "C"], &["4", "5", "6"], &["7", "8", "9"]]),
        table(&[&["A", "B", "C"], &["x", "y", "z"]]),
    ];
    let out = combine_tables(&tables);
    assert_eq!(out.len(), 1);
    assert_eq!(out[0].header, vec!["A", "B", "C"]);
    assert_eq!(
        out[0].rows,
        vec![
            vec!["1", "2", "3"],
            vec!["4", "5", "6"],
            vec!["7", "8", "9"],
            vec!["x", "y", "z"]
        ]
    );
    let expected = output_file_name(&names(&["A", "B", "C"]), 3);
    assert_eq!(out[0].name, expected);
    assert_eq!(out[0].name, format!("combined_{}.csv", generate_header_hash(&names(&["A", "B", "C"]))));
}

#[test]
fn no_tables_give_no_outputs() {
    let out = combine_tables(&[]);
    assert!(out.is_empty());
}

#[test]
fn grouping_joins_the_first_fitting_representative() {
    let headers = vec![
        names(&["A", "B"]),
        names(&["X", "Y"]),
        names(&["A", "B", "C"]),
        names(&["A", "B", "C", "D", "E"]),
        names(&["X", "Y", "Z"]),
    ];
    let groups = group_headers(&headers);
    // Table 3 fits table 2 but not the representative, table 0.
    assert_eq!(groups, vec![vec![0, 2], vec![1, 4], vec![3]]);
}

#[test]
fn grouping_partitions_all_indices() {
    let headers = vec![
        names(&["A"]),
        names(&[]),
        names(&["A", "B"]),
        names(&["C"]),
        names(&[]),
        names(&["C", "A"]),
    ];
    let groups = group_headers(&headers);
    let mut seen: Vec<usize> = groups.iter().flatten().copied().collect();
    seen.sort();
    assert_eq!(seen, vec![0, 1, 2, 3, 4, 5]);
    for g in groups.iter() {
        assert!(!g.is_empty());
    }
    // An empty header is compatible with nothing, so it stands alone.
    assert!(groups.contains(&vec![1]));
    assert!(groups.contains(&vec![4]));
}

#[test]
fn name_for_digest_is_exact() {
    assert_eq!(name_for_digest(0xab, 1), "single_00000000000000ab.csv");
    assert_eq!(name_for_digest(u64::MAX, 2), "combined_ffffffffffffffff.csv");
    assert_eq!(name_for_digest(0, 0), "combined_0000000000000000.csv");
}

#[test]
fn output_name_follows_the_header_hash() {
    let h = names(&["Name", "Age"]);
    assert_eq!(output_file_name(&h, 1), format!("single_{}.csv", generate_header_hash(&h)));
    assert_eq!(output_file_name(&h, 1), output_file_name(&names(&["Name", "Age"]), 1));
    assert_ne!(output_file_name(&h, 1), output_file_name(&names(&["Age", "Name"]), 1));
}

#[test]
fn supported_extensions_are_recognised() {
    assert_eq!(format_of_lowercase("csv"), Some(SourceFormat::Delimited));
    for ext in ["xlsx", "xls", "xlsm", "xlsb", "ods"] {
        assert_eq!(format_of_lowercase(ext), Some(SourceFormat::Workbook));
    }
    assert_eq!(format_of_lowercase("txt"), None);
    assert_eq!(format_of_lowercase("CSV"), None);
}

#[test]
fn path_validity_ignores_case_of_extension() {
    assert!(is_path_valid(true, Some("csv")));
    assert!(is_path_valid(true, Some("CSV")));
    assert!(is_path_valid(true, Some("XlSx")));
    assert!(!is_path_valid(true, Some("txt")));
    assert!(!is_path_valid(false, Some("csv")));
    assert!(!is_path_valid(true, None));
}

#[test]
fn file_contents_reader_by_extension() {
    assert_eq!(get_file_contents(Some("Csv")).unwrap(), SourceFormat::Delimited);
    assert_eq!(get_file_contents(Some("ODS")).unwrap(), SourceFormat::Workbook);
    match get_file_contents(Some("TXT")) {
        Err(ContentError::UnsupportedExtension(e)) => assert_eq!(e, "TXT"),
        other => panic!("unexpected: {:?}", other),
    }
    assert!(matches!(get_file_contents(None), Err(ContentError::NoExtension)));
}
