//! Snapshots of a scan as comma-separated text.
//!
//! A snapshot is a header row and one row per entry. The current schema
//! has six columns (`path`, `files`, `size_bytes`, `cumulative_files`,
//! `cumulative_size_bytes`, `type`); the old schema lacks the two
//! cumulative ones. Splitting text into rows and fields, and quoting
//! fields, is the `csv` crate's work.

use crate::decimal::{
    decimal_of, lemma_decimal_round_trip, parse_decimal, parse_u64, push_decimal, u64_to_decimal,
    NumberFault,
};
use crate::scanner::{entry_records, texts, DirectoryEntry, EntryRecord, EntryType};
use crate::utils::same_text;
use vstd::prelude::*;
use vstd::string::StringExecFns;

verus! {

/// `csv::Error`, the error of the `csv` crate. It is carried through
/// and never looked into.
#[verifier::external_type_specification]
#[verifier::external_body]
pub struct ExCsvError(csv::Error);

/// Why a snapshot could not be written or read.
#[derive(Debug)]
pub enum CsvError {
    /// The header lacks this column.
    MissingColumn(String),
    /// The row on this line (the header is line 1) cannot be understood.
    ParseError { line: usize, message: String },
    /// The file could not be read or written.
    IoError(std::io::Error),
    /// The text is not comma-separated data.
    CsvError(csv::Error),
}

/// A `CsvError` as a mathematical value; of an error from outside only
/// its kind.
pub enum CsvFault {
    MissingColumn(Seq<char>),
    Parse { line: usize, message: Seq<char> },
    Io,
    Csv,
}

impl View for CsvError {
    type V = CsvFault;

    open spec fn view(&self) -> CsvFault {
        match self {
            CsvError::MissingColumn(name) => CsvFault::MissingColumn(name@),
            CsvError::ParseError { line, message } => CsvFault::Parse {
                line: *line,
                message: message@,
            },
            CsvError::IoError(_) => CsvFault::Io,
            CsvError::CsvError(_) => CsvFault::Csv,
        }
    }
}

/// The fields of the header row of comma-separated `data`, as
/// `csv::Reader::headers` gives them; `None` where it fails.
pub uninterp spec fn csv_header_of(data: Seq<u8>) -> Option<Seq<Seq<char>>>;

/// The rows after the header of comma-separated `data`, as
/// `csv::Reader::records` gives them, each with its fields or, where the
/// row is malformed, with the reader's complaint.
pub uninterp spec fn csv_rows_of(data: Seq<u8>) -> Seq<Result<Seq<Seq<char>>, Seq<char>>>;

/// The bytes of one row with these fields, as `csv::Writer::write_record`
/// writes it; `None` where it fails.
pub uninterp spec fn csv_record_of(fields: Seq<Seq<char>>) -> Option<Seq<u8>>;

/// One row as it was read: its fields, or why it has none.
pub open spec fn row_text(row: Result<Vec<String>, String>) -> Result<Seq<Seq<char>>, Seq<char>> {
    match row {
        Ok(fields) => Ok(texts(fields@)),
        Err(message) => Err(message@),
    }
}

/// The rows as they were read.
pub open spec fn rows_text(rows: Seq<Result<Vec<String>, String>>) -> Seq<
    Result<Seq<Seq<char>>, Seq<char>>,
> {
    Seq::new(rows.len(), |i: int| row_text(rows[i]))
}

/// `csv::Reader::from_reader` and `csv::Reader::headers`: the fields of
/// the first row of the data, or the reader's error.
#[verifier::external_body]
fn csv_headers(data: &[u8]) -> (r: Result<Vec<String>, csv::Error>)
    ensures
        match r {
            Ok(fields) => csv_header_of(data@) == Some(texts(fields@)),
            Err(_) => csv_header_of(data@).is_none(),
        },
{
    let mut reader = csv::Reader::from_reader(data);
    let fields = reader.headers()?;
    Ok(fields.iter().map(|f| f.to_string()).collect())
}

/// `csv::Reader::from_reader` and `csv::Reader::records`: every row
/// after the header, with its fields or with the text of the reader's
/// error for that row.
#[verifier::external_body]
fn csv_rows(data: &[u8]) -> (r: Vec<Result<Vec<String>, String>>)
    ensures
        rows_text(r@) == csv_rows_of(data@),
{
    let mut reader = csv::Reader::from_reader(data);
    reader.records().map(
        |row|
            match row {
                Ok(record) => Ok(record.iter().map(|f| f.to_string()).collect()),
                Err(e) => Err(e.to_string()),
            },
    ).collect()
}

/// `csv::Writer::from_writer` and `csv::Writer::write_record`, into
/// memory: the bytes of one row with these fields.
#[verifier::external_body]
fn csv_record(fields: &Vec<String>) -> (r: Result<Vec<u8>, csv::Error>)
    ensures
        match r {
            Ok(bytes) => csv_record_of(texts(fields@)) == Some(bytes@),
            Err(_) => csv_record_of(texts(fields@)).is_none(),
        },
{
    let mut writer = csv::Writer::from_writer(Vec::new());
    writer.write_record(fields)?;
    writer.flush()?;
    Ok(writer.get_ref().clone())
}

/// The text of an entry type in a snapshot.
pub open spec fn type_text(t: EntryType) -> Seq<char> {
    match t {
        EntryType::Temp => "temp"@,
        EntryType::Normal => "normal"@,
    }
}

/// The header row of the current schema.
pub open spec fn header_row() -> Seq<Seq<char>> {
    seq![
        "path"@,
        "files"@,
        "size_bytes"@,
        "cumulative_files"@,
        "cumulative_size_bytes"@,
        "type"@,
    ]
}

/// The header row of the old schema.
pub open spec fn old_header_row() -> Seq<Seq<char>> {
    seq!["path"@, "files"@, "size_bytes"@, "type"@]
}

/// The fields of an entry's row in the current schema.
pub open spec fn row_of(e: EntryRecord) -> Seq<Seq<char>> {
    seq![
        e.path,
        decimal_of(e.file_count),
        decimal_of(e.size_bytes),
        decimal_of(e.cumulative_file_count),
        decimal_of(e.cumulative_size_bytes),
        type_text(e.entry_type),
    ]
}

/// The fields of an entry's row in the old schema.
pub open spec fn old_row_of(e: EntryRecord) -> Seq<Seq<char>> {
    seq![e.path, decimal_of(e.file_count), decimal_of(e.size_bytes), type_text(e.entry_type)]
}

/// The bytes of the rows of the first `n` entries, one after the other;
/// `None` if a row cannot be written.
pub open spec fn rows_bytes(entries: Seq<EntryRecord>, n: int) -> Option<Seq<u8>>
    decreases n,
{
    if n <= 0 {
        Some(Seq::empty())
    } else {
        match (rows_bytes(entries, n - 1), csv_record_of(row_of(entries[n - 1]))) {
            (Some(before), Some(row)) => Some(before + row),
            _ => None,
        }
    }
}

/// The bytes of a snapshot of the entries in the current schema.
pub open spec fn snapshot_bytes(entries: Seq<EntryRecord>) -> Option<Seq<u8>> {
    match (csv_record_of(header_row()), rows_bytes(entries, entries.len() as int)) {
        (Some(head), Some(rows)) => Some(head + rows),
        _ => None,
    }
}

/// How a number fault reads in a message.
pub open spec fn fault_text(why: NumberFault) -> Seq<char> {
    match why {
        NumberFault::Empty => "cannot parse integer from empty string"@,
        NumberFault::InvalidDigit => "invalid digit found in string"@,
        NumberFault::TooLarge => "number too large to fit in target type"@,
    }
}

/// One numeric field: its value, or the message that names the field
/// and says what is wrong with it.
pub open spec fn number_field(text: Seq<char>, what: Seq<char>) -> Result<u64, Seq<char>> {
    match parse_decimal(text) {
        Ok(n) => Ok(n),
        Err(why) => Err(what + fault_text(why)),
    }
}

/// The type field: one of the two literals, or the message that quotes
/// what was found.
pub open spec fn type_field(text: Seq<char>) -> Result<EntryType, Seq<char>> {
    if text == "temp"@ {
        Ok(EntryType::Temp)
    } else if text == "normal"@ {
        Ok(EntryType::Normal)
    } else {
        Err("Invalid entry type: "@ + text)
    }
}

/// The number of columns a row must have.
pub open spec fn expected_columns(cumulative: bool) -> nat {
    if cumulative {
        6
    } else {
        4
    }
}

/// The entry that the fields of one row stand for, or the message that
/// says what is wrong with the row. Fields are taken by position. In the
/// old schema the cumulative statistics are the direct ones.
pub open spec fn parse_fields(f: Seq<Seq<char>>, cumulative: bool) -> Result<
    EntryRecord,
    Seq<char>,
> {
    if f.len() < expected_columns(cumulative) {
        Err(
            "Expected "@ + decimal_of(expected_columns(cumulative)) + " columns, found "@
                + decimal_of(f.len()),
        )
    } else {
        match number_field(f[1], "Invalid file count: "@) {
            Err(m) => Err(m),
            Ok(files) => match number_field(f[2], "Invalid size: "@) {
                Err(m) => Err(m),
                Ok(size) => if cumulative {
                    match number_field(f[3], "Invalid cumulative file count: "@) {
                        Err(m) => Err(m),
                        Ok(all_files) => match number_field(f[4], "Invalid cumulative size: "@) {
                            Err(m) => Err(m),
                            Ok(all_size) => match type_field(f[5]) {
                                Err(m) => Err(m),
                                Ok(t) => Ok(
                                    EntryRecord {
                                        path: f[0],
                                        file_count: files as nat,
                                        size_bytes: size as nat,
                                        cumulative_file_count: all_files as nat,
                                        cumulative_size_bytes: all_size as nat,
                                        entry_type: t,
                                    },
                                ),
                            },
                        },
                    }
                } else {
                    match type_field(f[3]) {
                        Err(m) => Err(m),
                        Ok(t) => Ok(
                            EntryRecord {
                                path: f[0],
                                file_count: files as nat,
                                size_bytes: size as nat,
                                cumulative_file_count: files as nat,
                                cumulative_size_bytes: size as nat,
                                entry_type: t,
                            },
                        ),
                    }
                },
            },
        }
    }
}

/// The line of the row at place `i`: the header is line 1 and the first
/// row line 2. Line numbers stop at the largest machine word.
pub open spec fn line_of(i: int) -> usize {
    if i + 2 <= usize::MAX {
        (i + 2) as usize
    } else {
        usize::MAX
    }
}

/// The entries of the first `n` rows, or the first fault among them.
pub open spec fn load_rows(
    rows: Seq<Result<Seq<Seq<char>>, Seq<char>>>,
    cumulative: bool,
    n: int,
) -> Result<Seq<EntryRecord>, CsvFault>
    decreases n,
{
    if n <= 0 {
        Ok(Seq::empty())
    } else {
        match load_rows(rows, cumulative, n - 1) {
            Err(fault) => Err(fault),
            Ok(entries) => match rows[n - 1] {
                Err(message) => Err(CsvFault::Parse { line: line_of(n - 1), message }),
                Ok(fields) => match parse_fields(fields, cumulative) {
                    Err(message) => Err(CsvFault::Parse { line: line_of(n - 1), message }),
                    Ok(entry) => Ok(entries.push(entry)),
                },
            },
        }
    }
}

/// The first of the four columns common to both schemas that the header
/// lacks.
pub open spec fn missing_column(header: Seq<Seq<char>>) -> Option<Seq<char>> {
    if !header.contains("path"@) {
        Some("path"@)
    } else if !header.contains("files"@) {
        Some("files"@)
    } else if !header.contains("size_bytes"@) {
        Some("size_bytes"@)
    } else if !header.contains("type"@) {
        Some("type"@)
    } else {
        None
    }
}

/// What a snapshot with this header and these rows holds. A missing
/// column is found before any row is looked at. The schema is the current
/// one exactly when the header has a column `cumulative_files`.
pub open spec fn load_table(
    header: Seq<Seq<char>>,
    rows: Seq<Result<Seq<Seq<char>>, Seq<char>>>,
) -> Result<Seq<EntryRecord>, CsvFault> {
    match missing_column(header) {
        Some(name) => Err(CsvFault::MissingColumn(name)),
        None => load_rows(rows, header.contains("cumulative_files"@), rows.len() as int),
    }
}

/// The outcome of loading, as mathematical values.
pub open spec fn loaded(r: Result<Vec<DirectoryEntry>, CsvError>) -> Result<
    Seq<EntryRecord>,
    CsvFault,
> {
    match r {
        Ok(entries) => Ok(entry_records(entries@)),
        Err(e) => Err(e@),
    }
}

/// Whether the header has a column of this name.
pub fn has_column(header: &Vec<String>, name: &str) -> (r: bool)
    ensures
        r == texts(header@).contains(name@),
{
    let mut i: usize = 0;
    while i < header.len()
        invariant
            i <= header.len(),
            forall|j: int| 0 <= j < i ==> header[j]@ != name@,
        decreases header.len() - i,
    {
        if same_text(header[i].as_str(), name) {
            proof {
                assert(texts(header@)[i as int] == name@);
            }
            return true;
        }
        i += 1;
    }
    proof {
        let t = texts(header@);
        assert forall|j: int| 0 <= j < t.len() implies t[j] != name@ by {}
    }
    false
}

/// How a number fault reads in a message.
fn fault_message(why: NumberFault) -> (r: &'static str)
    ensures
        r@ == fault_text(why),
{
    match why {
        NumberFault::Empty => "cannot parse integer from empty string",
        NumberFault::InvalidDigit => "invalid digit found in string",
        NumberFault::TooLarge => "number too large to fit in target type",
    }
}

/// Reads one numeric field; `what` begins the message of a failure.
fn read_number(text: &String, what: &str) -> (r: Result<u64, String>)
    ensures
        match r {
            Ok(n) => number_field(text@, what@) == Ok::<u64, Seq<char>>(n),
            Err(m) => number_field(text@, what@) == Err::<u64, Seq<char>>(m@),
        },
{
    match parse_u64(text.as_str()) {
        Ok(n) => Ok(n),
        Err(why) => {
            let mut message = String::from_str(what);
            message.append(fault_message(why));
            Err(message)
        },
    }
}

/// Reads the type field.
fn read_type(text: &String) -> (r: Result<EntryType, String>)
    ensures
        match r {
            Ok(t) => type_field(text@) == Ok::<EntryType, Seq<char>>(t),
            Err(m) => type_field(text@) == Err::<EntryType, Seq<char>>(m@),
        },
{
    if same_text(text.as_str(), "temp") {
        Ok(EntryType::Temp)
    } else if same_text(text.as_str(), "normal") {
        Ok(EntryType::Normal)
    } else {
        let mut message = String::from_str("Invalid entry type: ");
        message.append(text.as_str());
        Err(message)
    }
}

/// Reads one row: the entry that its fields stand for, or what is wrong
/// with them.
pub fn read_fields(fields: &Vec<String>, cumulative: bool) -> (r: Result<DirectoryEntry, String>)
    ensures
        match r {
            Ok(e) => parse_fields(texts(fields@), cumulative) == Ok::<EntryRecord, Seq<char>>(e@),
            Err(m) => parse_fields(texts(fields@), cumulative) == Err::<EntryRecord, Seq<char>>(
                m@,
            ),
        },
{
    let ghost f = texts(fields@);
    let expected: usize = if cumulative {
        6
    } else {
        4
    };
    if fields.len() < expected {
        let mut message = String::from_str("Expected ");
        push_decimal(&mut message, expected as u64);
        message.append(" columns, found ");
        push_decimal(&mut message, fields.len() as u64);
        return Err(message);
    }
    proof {
        assert(f[0] == fields@[0]@);
        assert(f[1] == fields@[1]@);
        assert(f[2] == fields@[2]@);
        assert(f[3] == fields@[3]@);
        if cumulative {
            assert(f[4] == fields@[4]@);
            assert(f[5] == fields@[5]@);
        }
    }
    let file_count = match read_number(&fields[1], "Invalid file count: ") {
        Ok(n) => n,
        Err(m) => {
            return Err(m);
        },
    };
    let size_bytes = match read_number(&fields[2], "Invalid size: ") {
        Ok(n) => n,
        Err(m) => {
            return Err(m);
        },
    };
    if cumulative {
        let cumulative_file_count = match read_number(
            &fields[3],
            "Invalid cumulative file count: ",
        ) {
            Ok(n) => n,
            Err(m) => {
                return Err(m);
            },
        };
        let cumulative_size_bytes = match read_number(&fields[4], "Invalid cumulative size: ") {
            Ok(n) => n,
            Err(m) => {
                return Err(m);
            },
        };
        let entry_type = match read_type(&fields[5]) {
            Ok(t) => t,
            Err(m) => {
                return Err(m);
            },
        };
        Ok(
            DirectoryEntry {
                path: fields[0].clone(),
                file_count,
                size_bytes,
                cumulative_file_count,
                cumulative_size_bytes,
                entry_type,
            },
        )
    } else {
        let entry_type = match read_type(&fields[3]) {
            Ok(t) => t,
            Err(m) => {
                return Err(m);
            },
        };
        Ok(
            DirectoryEntry {
                path: fields[0].clone(),
                file_count,
                size_bytes,
                cumulative_file_count: file_count,
                cumulative_size_bytes: size_bytes,
                entry_type,
            },
        )
    }
}

/// Loads the entries of a snapshot from its header and rows.
///
/// Fails with `MissingColumn` if the header lacks one of `path`, `files`,
/// `size_bytes`, `type` (the first of them, in this order), before any
/// row is read; else with `ParseError` for the first row that is
/// malformed, has too few fields, a field that is no unsigned number, or
/// a type that is neither `temp` nor `normal`.
pub fn load_entries(header: &Vec<String>, rows: &Vec<Result<Vec<String>, String>>) -> (r: Result<
    Vec<DirectoryEntry>,
    CsvError,
>)
    ensures
        loaded(r) == load_table(texts(header@), rows_text(rows@)),
{
    if !has_column(header, "path") {
        return Err(CsvError::MissingColumn(String::from_str("path")));
    }
    if !has_column(header, "files") {
        return Err(CsvError::MissingColumn(String::from_str("files")));
    }
    if !has_column(header, "size_bytes") {
        return Err(CsvError::MissingColumn(String::from_str("size_bytes")));
    }
    if !has_column(header, "type") {
        return Err(CsvError::MissingColumn(String::from_str("type")));
    }
    let cumulative = has_column(header, "cumulative_files");
    let ghost table = rows_text(rows@);
    let mut entries: Vec<DirectoryEntry> = Vec::new();
    let mut i: usize = 0;
    proof {
        assert(entry_records(entries@) =~= Seq::<EntryRecord>::empty());
    }
    while i < rows.len()
        invariant
            i <= rows.len(),
            table == rows_text(rows@),
            missing_column(texts(header@)).is_none(),
            cumulative == texts(header@).contains("cumulative_files"@),
            load_rows(table, cumulative, i as int) == Ok::<Seq<EntryRecord>, CsvFault>(
                entry_records(entries@),
            ),
        decreases rows.len() - i,
    {
        let ghost before = entry_records(entries@);
        let line: usize = if i <= usize::MAX - 2 {
            i + 2
        } else {
            usize::MAX
        };
        proof {
            assert(table[i as int] == row_text(rows@[i as int]));
        }
        match &rows[i] {
            Err(message) => {
                proof {
                    assert(load_rows(table, cumulative, i + 1) == Err::<
                        Seq<EntryRecord>,
                        CsvFault,
                    >(CsvFault::Parse { line, message: message@ }));
                    lemma_first_fault_stays(table, cumulative, i + 1, rows.len() as int);
                }
                return Err(CsvError::ParseError { line, message: message.clone() });
            },
            Ok(fields) => {
                match read_fields(fields, cumulative) {
                    Err(message) => {
                        proof {
                            assert(load_rows(table, cumulative, i + 1) == Err::<
                                Seq<EntryRecord>,
                                CsvFault,
                            >(CsvFault::Parse { line, message: message@ }));
                            lemma_first_fault_stays(table, cumulative, i + 1, rows.len() as int);
                        }
                        return Err(CsvError::ParseError { line, message });
                    },
                    Ok(entry) => {
                        entries.push(entry);
                        proof {
                            assert(entry_records(entries@) =~= before.push(entry@));
                        }
                    },
                }
            },
        }
        i += 1;
    }
    Ok(entries)
}

proof fn lemma_first_fault_stays(
    rows: Seq<Result<Seq<Seq<char>>, Seq<char>>>,
    cumulative: bool,
    k: int,
    n: int,
)
    requires
        0 <= k <= n,
        load_rows(rows, cumulative, k).is_err(),
    ensures
        load_rows(rows, cumulative, n) == load_rows(rows, cumulative, k),
    decreases n - k,
{
    if k < n {
        lemma_first_fault_stays(rows, cumulative, k, n - 1);
    }
}

/// Reads a snapshot from the bytes of a file.
///
/// The `csv` crate splits the bytes into the header and the rows; what
/// they hold is then decided as `load_entries` says. Where the header
/// itself cannot be read, the crate's error is handed on.
pub fn read_csv(data: &[u8]) -> (r: Result<Vec<DirectoryEntry>, CsvError>)
    ensures
        match csv_header_of(data@) {
            Some(header) => loaded(r) == load_table(header, csv_rows_of(data@)),
            None => r matches Err(CsvError::CsvError(_)),
        },
{
    let header = match csv_headers(data) {
        Ok(header) => header,
        Err(e) => {
            return Err(CsvError::CsvError(e));
        },
    };
    let rows = csv_rows(data);
    load_entries(&header, &rows)
}

/// The text of an entry type in a snapshot.
fn type_label(t: EntryType) -> (r: &'static str)
    ensures
        r@ == type_text(t),
{
    match t {
        EntryType::Temp => "temp",
        EntryType::Normal => "normal",
    }
}

/// The fields of an entry's row in the current schema.
pub fn entry_row(e: &DirectoryEntry) -> (r: Vec<String>)
    ensures
        texts(r@) == row_of(e@),
{
    let mut row: Vec<String> = Vec::new();
    row.push(e.path.clone());
    row.push(u64_to_decimal(e.file_count));
    row.push(u64_to_decimal(e.size_bytes));
    row.push(u64_to_decimal(e.cumulative_file_count));
    row.push(u64_to_decimal(e.cumulative_size_bytes));
    row.push(String::from_str(type_label(e.entry_type)));
    proof {
        assert(texts(row@) =~= row_of(e@));
    }
    row
}

/// The header row of the current schema.
pub fn header_fields() -> (r: Vec<String>)
    ensures
        texts(r@) == header_row(),
{
    let mut row: Vec<String> = Vec::new();
    row.push(String::from_str("path"));
    row.push(String::from_str("files"));
    row.push(String::from_str("size_bytes"));
    row.push(String::from_str("cumulative_files"));
    row.push(String::from_str("cumulative_size_bytes"));
    row.push(String::from_str("type"));
    proof {
        assert(texts(row@) =~= header_row());
    }
    row
}

/// Writes a snapshot of the entries, in the current schema, as the bytes
/// of a file: the header row, then one row per entry, in order.
pub fn write_csv(entries: &Vec<DirectoryEntry>) -> (r: Result<Vec<u8>, CsvError>)
    ensures
        match r {
            Ok(bytes) => snapshot_bytes(entry_records(entries@)) == Some(bytes@),
            Err(e) => snapshot_bytes(entry_records(entries@)).is_none() && e@ == CsvFault::Csv,
        },
{
    let ghost recs = entry_records(entries@);
    let mut out = match csv_record(&header_fields()) {
        Ok(bytes) => bytes,
        Err(e) => {
            return Err(CsvError::CsvError(e));
        },
    };
    let ghost head = out@;
    let mut i: usize = 0;
    while i < entries.len()
        invariant
            i <= entries.len(),
            recs == entry_records(entries@),
            csv_record_of(header_row()) == Some(head),
            match rows_bytes(recs, i as int) {
                Some(rows) => out@ == head + rows,
                None => false,
            },
        decreases entries.len() - i,
    {
        proof {
            assert(recs[i as int] == entries@[i as int]@);
        }
        let ghost before = rows_bytes(recs, i as int).unwrap();
        match csv_record(&entry_row(&entries[i])) {
            Ok(mut bytes) => {
                let ghost row = bytes@;
                out.append(&mut bytes);
                proof {
                    assert(out@ =~= head + (before + row));
                }
            },
            Err(e) => {
                proof {
                    assert(rows_bytes(recs, i + 1).is_none());
                    lemma_rows_bytes_stays(recs, i + 1, entries.len() as int);
                }
                return Err(CsvError::CsvError(e));
            },
        }
        i += 1;
    }
    Ok(out)
}

proof fn lemma_rows_bytes_stays(entries: Seq<EntryRecord>, k: int, n: int)
    requires
        0 <= k <= n,
        rows_bytes(entries, k).is_none(),
    ensures
        rows_bytes(entries, n).is_none(),
    decreases n - k,
{
    if k < n {
        lemma_rows_bytes_stays(entries, k, n - 1);
    }
}

/// The rows of the entries in the current schema, as they are read back.
pub open spec fn rows_of(entries: Seq<EntryRecord>) -> Seq<Result<Seq<Seq<char>>, Seq<char>>> {
    Seq::new(entries.len(), |i: int| Ok(row_of(entries[i])))
}

/// The rows of the entries in the old schema, as they are read back.
pub open spec fn old_rows_of(entries: Seq<EntryRecord>) -> Seq<
    Result<Seq<Seq<char>>, Seq<char>>,
> {
    Seq::new(entries.len(), |i: int| Ok(old_row_of(entries[i])))
}

/// The statistics of the entry are machine numbers.
pub open spec fn fits(e: EntryRecord) -> bool {
    &&& e.file_count <= u64::MAX
    &&& e.size_bytes <= u64::MAX
    &&& e.cumulative_file_count <= u64::MAX
    &&& e.cumulative_size_bytes <= u64::MAX
}

/// The entry as the old schema keeps it: the cumulative statistics are
/// the direct ones.
pub open spec fn without_cumulative(e: EntryRecord) -> EntryRecord {
    EntryRecord {
        cumulative_file_count: e.file_count,
        cumulative_size_bytes: e.size_bytes,
        ..e
    }
}

/// The row of an entry reads back as the entry, field for field: in the
/// current schema as it is, in the old schema with the cumulative
/// statistics set to the direct ones.
pub proof fn lemma_row_round_trip(e: EntryRecord)
    requires
        fits(e),
    ensures
        parse_fields(row_of(e), true) == Ok::<EntryRecord, Seq<char>>(e),
        parse_fields(old_row_of(e), false) == Ok::<EntryRecord, Seq<char>>(without_cumulative(e)),
{
    lemma_decimal_round_trip(e.file_count as u64);
    lemma_decimal_round_trip(e.size_bytes as u64);
    lemma_decimal_round_trip(e.cumulative_file_count as u64);
    lemma_decimal_round_trip(e.cumulative_size_bytes as u64);
    reveal_strlit("temp");
    reveal_strlit("normal");
    assert("temp"@ != "normal"@) by {
        assert("temp"@.len() != "normal"@.len());
    }
}

proof fn lemma_rows_round_trip(entries: Seq<EntryRecord>, n: int)
    requires
        0 <= n <= entries.len(),
        forall|i: int| 0 <= i < entries.len() ==> fits(#[trigger] entries[i]),
    ensures
        load_rows(rows_of(entries), true, n) == Ok::<Seq<EntryRecord>, CsvFault>(entries.take(n)),
        load_rows(old_rows_of(entries), false, n) == Ok::<Seq<EntryRecord>, CsvFault>(
            entries.take(n).map_values(|e: EntryRecord| without_cumulative(e)),
        ),
    decreases n,
{
    if n > 0 {
        lemma_rows_round_trip(entries, n - 1);
        lemma_row_round_trip(entries[n - 1]);
        assert(entries.take(n) =~= entries.take(n - 1).push(entries[n - 1]));
        assert(entries.take(n).map_values(|e: EntryRecord| without_cumulative(e))
            =~= entries.take(n - 1).map_values(|e: EntryRecord| without_cumulative(e)).push(
            without_cumulative(entries[n - 1]),
        ));
    } else {
        assert(entries.take(0) =~= Seq::<EntryRecord>::empty());
        assert(entries.take(0).map_values(|e: EntryRecord| without_cumulative(e))
            =~= Seq::<EntryRecord>::empty());
    }
}

/// A snapshot reads back as it was written: under the header of the
/// current schema the rows of any entries load as those entries, every
/// field as it was; under the header of the old schema they load with the
/// cumulative statistics set to the direct ones.
pub proof fn lemma_snapshot_round_trip(entries: Seq<EntryRecord>)
    requires
        forall|i: int| 0 <= i < entries.len() ==> fits(#[trigger] entries[i]),
    ensures
        load_table(header_row(), rows_of(entries)) == Ok::<Seq<EntryRecord>, CsvFault>(entries),
        load_table(old_header_row(), old_rows_of(entries)) == Ok::<Seq<EntryRecord>, CsvFault>(
            entries.map_values(|e: EntryRecord| without_cumulative(e)),
        ),
{
    lemma_rows_round_trip(entries, entries.len() as int);
    assert(entries.take(entries.len() as int) =~= entries);
    let h = header_row();
    assert(h[0] == "path"@ && h[1] == "files"@ && h[2] == "size_bytes"@ && h[3]
        == "cumulative_files"@ && h[5] == "type"@);
    let o = old_header_row();
    assert(o[0] == "path"@ && o[1] == "files"@ && o[2] == "size_bytes"@ && o[3] == "type"@);
    reveal_strlit("path");
    reveal_strlit("files");
    reveal_strlit("size_bytes");
    reveal_strlit("type");
    reveal_strlit("cumulative_files");
    assert(!o.contains("cumulative_files"@)) by {
        assert forall|i: int| 0 <= i < o.len() implies o[i] != "cumulative_files"@ by {
            assert(o[i].len() != "cumulative_files"@.len());
        }
    }
}

} // verus!
