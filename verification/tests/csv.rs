use simplidb::csv::{parse_csv, CsvError};

#[test]
fn test_parse_csv_with_2_columns() {
    let datastore = parse_csv("col1,col2\n1,2\n2,3", "data", "data.csv").unwrap();
    assert_eq!(datastore.name, "data");
    assert_eq!(datastore.path, "data.csv");
    assert_eq!(datastore.columns.len(), 2);

    assert_eq!(datastore.columns.get(0).unwrap().name, "col1");
    assert_eq!(datastore.columns.get(0).unwrap().data.len(), 2);
    assert_eq!(datastore.columns.get(0).unwrap().data.get(0).unwrap(), "1");
    assert_eq!(datastore.columns.get(0).unwrap().data.get(1).unwrap(), "2");

    assert_eq!(datastore.columns.get(1).unwrap().name, "col2");
    assert_eq!(datastore.columns.get(1).unwrap().data.len(), 2);
    assert_eq!(datastore.columns.get(1).unwrap().data.get(0).unwrap(), "2");
    assert_eq!(datastore.columns.get(1).unwrap().data.get(1).unwrap(), "3");
}

#[test]
fn test_carriage_returns_and_blank_lines() {
    let datastore = parse_csv("a,b\r\n\n1,2\r\n", "t", "t.csv").unwrap();
    assert_eq!(datastore.columns.len(), 2);
    assert_eq!(datastore.columns[0].name, "a");
    assert_eq!(datastore.columns[1].name, "b");
    assert_eq!(datastore.columns[0].data, vec!["1".to_owned()]);
    assert_eq!(datastore.columns[1].data, vec!["2".to_owned()]);
}

#[test]
fn test_no_header() {
    assert_eq!(parse_csv("", "t", "t.csv").unwrap_err(), CsvError::NoHeader);
    assert_eq!(
        parse_csv("\n\n", "t", "t.csv").unwrap_err(),
        CsvError::NoHeader
    );
}

#[test]
fn test_inconsistent_row() {
    assert_eq!(
        parse_csv("a,b\n1,2\n3", "t", "t.csv").unwrap_err(),
        CsvError::RowWidth {
            row: vec!["3".to_owned()],
            expected: 2,
            got: 1,
        }
    );
}

#[test]
fn test_header_only() {
    let datastore = parse_csv("just_one", "t", "t.csv").unwrap();
    assert_eq!(datastore.columns.len(), 1);
    assert_eq!(datastore.columns[0].name, "just_one");
    assert_eq!(datastore.columns[0].data.len(), 0);
}
