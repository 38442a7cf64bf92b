use disk_cleanup_tool::csv_handler::{load_entries, read_csv, read_fields, write_csv, CsvError};
use disk_cleanup_tool::scanner::{DirectoryEntry, EntryType};

fn entry(path: &str, f: u64, s: u64, cf: u64, cs: u64, t: EntryType) -> DirectoryEntry {
    DirectoryEntry {
        path: path.to_string(),
        file_count: f,
        size_bytes: s,
        cumulative_file_count: cf,
        cumulative_size_bytes: cs,
        entry_type: t,
    }
}

fn same(a: &DirectoryEntry, b: &DirectoryEntry) -> bool {
    a.path == b.path
        && a.file_count == b.file_count
        && a.size_bytes == b.size_bytes
        && a.cumulative_file_count == b.cumulative_file_count
        && a.cumulative_size_bytes == b.cumulative_size_bytes
        && a.entry_type == b.entry_type
}

#[test]
fn test_write_and_read_csv() {
    let entries = vec![
        entry("/home/user/project", 100, 1024000, 5100, 525312000, EntryType::Normal),
        entry("/home/user/project/node_modules", 5000, 524288000, 5000, 524288000, EntryType::Temp),
    ];

    // Write CSV
    let bytes = write_csv(&entries).unwrap();

    // Read CSV back
    let loaded = read_csv(&bytes).unwrap();

    assert_eq!(loaded.len(), 2);
    assert_eq!(loaded[0].path, "/home/user/project");
    assert_eq!(loaded[0].file_count, 100);
    assert_eq!(loaded[0].size_bytes, 1024000);
    assert_eq!(loaded[0].cumulative_file_count, 5100);
    assert_eq!(loaded[0].cumulative_size_bytes, 525312000);
    assert_eq!(loaded[0].entry_type, EntryType::Normal);

    assert_eq!(loaded[1].path, "/home/user/project/node_modules");
    assert_eq!(loaded[1].file_count, 5000);
    assert_eq!(loaded[1].size_bytes, 524288000);
    assert_eq!(loaded[1].cumulative_file_count, 5000);
    assert_eq!(loaded[1].cumulative_size_bytes, 524288000);
    assert_eq!(loaded[1].entry_type, EntryType::Temp);
}

#[test]
fn test_read_malformed_csv() {
    // malformed CSV (missing column)
    let result = read_csv("path,files,size_bytes\n/test,10,100\n".as_bytes());
    assert!(matches!(result, Err(CsvError::MissingColumn(_))));
    match result {
        Err(CsvError::MissingColumn(name)) => assert_eq!(name, "type"),
        _ => panic!("expected a missing column"),
    }
}

#[test]
fn test_read_old_format_csv() {
    // old format CSV (without cumulative columns)
    let result = read_csv("path,files,size_bytes,type\n/test,10,100,normal\n".as_bytes()).unwrap();
    assert_eq!(result.len(), 1);
    assert_eq!(result[0].file_count, 10);
    assert_eq!(result[0].size_bytes, 100);
    // Old format should use direct values as cumulative
    assert_eq!(result[0].cumulative_file_count, 10);
    assert_eq!(result[0].cumulative_size_bytes, 100);
    assert_eq!(result[0].path, "/test");
    assert_eq!(result[0].entry_type, EntryType::Normal);
}

#[test]
fn test_read_invalid_number() {
    // CSV with invalid number (old format)
    let result = read_csv("path,files,size_bytes,type\n/test,abc,100,normal\n".as_bytes());
    assert!(matches!(result, Err(CsvError::ParseError { .. })));
    match result {
        Err(CsvError::ParseError { line, message }) => {
            assert_eq!(line, 2);
            assert_eq!(message, "Invalid file count: invalid digit found in string");
        }
        _ => panic!("expected a parse error"),
    }
}

#[test]
fn written_snapshot_has_header_and_rows() {
    let entries = vec![
        entry("/a", 1, 2, 3, 4, EntryType::Temp),
        entry("/b, with comma", 0, 0, 0, 0, EntryType::Normal),
    ];
    let text = String::from_utf8(write_csv(&entries).unwrap()).unwrap();
    assert_eq!(
        text,
        "path,files,size_bytes,cumulative_files,cumulative_size_bytes,type\n/a,1,2,3,4,temp\n\"/b, with comma\",0,0,0,0,normal\n"
    );
    let empty = String::from_utf8(write_csv(&vec![]).unwrap()).unwrap();
    assert_eq!(empty, "path,files,size_bytes,cumulative_files,cumulative_size_bytes,type\n");
}

#[test]
fn snapshots_round_trip() {
    let cases: Vec<Vec<DirectoryEntry>> = vec![
        vec![],
        vec![entry("/only", 0, 0, 0, 0, EntryType::Normal)],
        vec![
            entry("/r", 1, 2, 30, 40, EntryType::Normal),
            entry("/r/\"quoted\"", 0, 0, 0, 0, EntryType::Temp),
            entry("/r/line\nbreak", 7, u64::MAX, 7, u64::MAX, EntryType::Temp),
            entry("/r/ünï", 5, 6, 7, 8, EntryType::Normal),
        ],
    ];
    for entries in cases {
        let loaded = read_csv(&write_csv(&entries).unwrap()).unwrap();
        assert_eq!(loaded.len(), entries.len());
        for (a, b) in entries.iter().zip(loaded.iter()) {
            assert!(same(a, b), "{:?} != {:?}", a, b);
        }
    }
}

#[test]
fn old_schema_round_trip() {
    let text = "path,files,size_bytes,type\n/a,0,0,temp\n/b,3,4096,normal\n";
    let loaded = read_csv(text.as_bytes()).unwrap();
    assert_eq!(loaded.len(), 2);
    assert!(same(&loaded[0], &entry("/a", 0, 0, 0, 0, EntryType::Temp)));
    assert!(same(&loaded[1], &entry("/b", 3, 4096, 3, 4096, EntryType::Normal)));
}

#[test]
fn missing_column_is_found_before_any_row() {
    // the row is malformed too, but the header is judged first
    let result = read_csv("files,size_bytes,type\nabc,x,y\n".as_bytes());
    match result {
        Err(CsvError::MissingColumn(name)) => assert_eq!(name, "path"),
        _ => panic!("expected a missing column"),
    }
    let result = read_csv("path,size_bytes\n".as_bytes());
    match result {
        Err(CsvError::MissingColumn(name)) => assert_eq!(name, "files"),
        _ => panic!("expected a missing column"),
    }
    let result = read_csv("path,files,type\n".as_bytes());
    match result {
        Err(CsvError::MissingColumn(name)) => assert_eq!(name, "size_bytes"),
        _ => panic!("expected a missing column"),
    }
}

#[test]
fn parse_errors_name_the_row_and_the_field() {
    let head = "path,files,size_bytes,cumulative_files,cumulative_size_bytes,type\n";
    let check = |rows: &str, line: usize, message: &str| {
        let text = format!("{}{}", head, rows);
        match read_csv(text.as_bytes()) {
            Err(CsvError::ParseError { line: l, message: m }) => {
                assert_eq!(l, line);
                assert_eq!(m, message);
            }
            other => panic!("expected a parse error, got {:?}", other.map(|v| v.len())),
        }
    };
    check("/a,1,2,3,4,temp\n/b,x,2,3,4,temp\n", 3, "Invalid file count: invalid digit found in string");
    check("/a,1,,3,4,temp\n", 2, "Invalid size: cannot parse integer from empty string");
    check(
        "/a,1,2,99999999999999999999,4,temp\n",
        2,
        "Invalid cumulative file count: number too large to fit in target type",
    );
    check("/a,1,2,3,-4,temp\n", 2, "Invalid cumulative size: invalid digit found in string");
    check("/a,1,2,3,4,Temp\n", 2, "Invalid entry type: Temp");
    check("/a,1,2,3,4,temp\n/b,1,2,3,4,temp\n/c,1,2,3,4,\n", 4, "Invalid entry type: ");
}

#[test]
fn a_row_of_the_wrong_length_is_a_parse_error() {
    let result = read_csv("path,files,size_bytes,type\n/a,1,2\n".as_bytes());
    match result {
        Err(CsvError::ParseError { line, .. }) => assert_eq!(line, 2),
        _ => panic!("expected a parse error"),
    }
}

#[test]
fn rows_with_too_few_fields() {
    let fields: Vec<String> = vec!["/a".to_string(), "1".to_string(), "2".to_string()];
    assert_eq!(read_fields(&fields, false).unwrap_err(), "Expected 4 columns, found 3");
    let fields: Vec<String> =
        vec!["/a".to_string(), "1".to_string(), "2".to_string(), "temp".to_string()];
    assert_eq!(read_fields(&fields, true).unwrap_err(), "Expected 6 columns, found 4");
    let e = read_fields(&fields, false).unwrap();
    assert!(same(&e, &entry("/a", 1, 2, 1, 2, EntryType::Temp)));
}

#[test]
fn schema_is_found_by_the_columns_present() {
    let header: Vec<String> =
        ["type", "cumulative_files", "path", "files", "size_bytes"].iter().map(|s| s.to_string()).collect();
    let row: Vec<String> = ["/a", "1", "2", "3", "4", "normal"].iter().map(|s| s.to_string()).collect();
    let loaded = load_entries(&header, &vec![Ok(row)]).unwrap();
    assert!(same(&loaded[0], &entry("/a", 1, 2, 3, 4, EntryType::Normal)));
    let malformed = load_entries(&header, &vec![Err("broken row".to_string())]);
    match malformed {
        Err(CsvError::ParseError { line, message }) => {
            assert_eq!(line, 2);
            assert_eq!(message, "broken row");
        }
        _ => panic!("expected a parse error"),
    }
}

#[test]
fn data_that_is_not_text_is_refused() {
    let result = read_csv(&[0xff, 0xfe, b',', b'a', b'\n']);
    assert!(matches!(result, Err(CsvError::CsvError(_))));
}
