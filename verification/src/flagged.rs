//! The directories that one of Sol's warning CSVs flags.
use crate::text;
use vstd::prelude::*;
use vstd::string::*;

verus! {

/// A CSV of the warning directory, as it was read.
#[derive(Debug)]
pub struct CsvFile {
    /// The file's name in its directory.
    pub name: String,
    /// The file's path, as it is shown.
    pub path: String,
    /// The file's bytes, or why they could not be read.
    pub contents: Result<Vec<u8>, String>,
}

/// A row of a CSV by its view: the fields, or the reader's error.
pub open spec fn row_view(row: Result<Vec<String>, String>) -> Result<Seq<Seq<char>>, Seq<char>> {
    match row {
        Ok(fields) => Ok(fields.deep_view()),
        Err(e) => Err(e@),
    }
}

/// Rows of a CSV by their views.
pub open spec fn rows_view(rows: Seq<Result<Vec<String>, String>>) -> Seq<
    Result<Seq<Seq<char>>, Seq<char>>,
> {
    rows.map_values(|row: Result<Vec<String>, String>| row_view(row))
}

/// The header row that `csv::Reader::headers` gives for `data`: its fields, or
/// the error in words.
pub uninterp spec fn csv_headers(data: Seq<u8>, flexible: bool) -> Result<
    Seq<Seq<char>>,
    Seq<char>,
>;

/// The rows that `csv::Reader::records` gives for `data` once the header row has
/// been read, each with its fields, or the error in words.
pub uninterp spec fn csv_records(data: Seq<u8>, flexible: bool) -> Seq<
    Result<Seq<Seq<char>>, Seq<char>>,
>;

/// Calls `csv::Reader::headers` on a reader over `data` that is as flexible
/// about the number of fields as asked, and is else the default one. The result
/// depends on the bytes and the setting alone; an error is given by its
/// `Display` text.
#[verifier::external_body]
fn header_row(data: &[u8], flexible: bool) -> (row: Result<Vec<String>, String>)
    ensures
        row_view(row) == csv_headers(data@, flexible),
{
    let mut reader = csv::ReaderBuilder::new().flexible(flexible).from_reader(data);
    match reader.headers() {
        Ok(record) => Ok(record.iter().map(String::from).collect()),
        Err(e) => Err(e.to_string()),
    }
}

/// Calls `csv::Reader::records` on a reader over `data` whose header row has
/// been read, and collects what the iterator yields, errors included. The result
/// depends on the bytes and the setting alone; an error is given by its
/// `Display` text.
#[verifier::external_body]
fn record_rows(data: &[u8], flexible: bool) -> (rows: Vec<Result<Vec<String>, String>>)
    ensures
        rows_view(rows@) == csv_records(data@, flexible),
{
    let mut reader = csv::ReaderBuilder::new().flexible(flexible).from_reader(data);
    let _ = reader.headers();
    let convert = |row: Result<csv::StringRecord, csv::Error>| match row {
        Ok(record) => Ok(record.iter().map(String::from).collect()),
        Err(e) => Err(e.to_string()),
    };
    reader.records().map(convert).collect()
}

/// Whether `data` begins with the UTF-8 byte order mark.
pub open spec fn begins_with_bom(data: Seq<u8>) -> bool {
    seq![0xEFu8, 0xBBu8, 0xBFu8].is_prefix_of(data)
}

/// The first header that names the `Directory` column. A byte order mark is part
/// of the first header's name.
pub open spec fn directory_index(headers: Seq<Seq<char>>, has_bom: bool) -> Option<nat>
    decreases headers.len(),
{
    if headers.len() == 0 {
        None
    } else if directory_index(headers.drop_last(), has_bom) is Some {
        directory_index(headers.drop_last(), has_bom)
    } else if headers.last() == "Directory"@ && !(headers.len() == 1 && has_bom) {
        Some((headers.len() - 1) as nat)
    } else {
        None
    }
}

/// The trimmed fields of column `index` that hold something, or the first row's
/// error. A row without the column is passed over.
pub open spec fn column(rows: Seq<Result<Seq<Seq<char>>, Seq<char>>>, index: nat) -> Result<
    Seq<Seq<char>>,
    Seq<char>,
>
    decreases rows.len(),
{
    if rows.len() == 0 {
        Ok(Seq::empty())
    } else {
        match (column(rows.drop_last(), index), rows.last()) {
            (Err(e), _) => Err(e),
            (Ok(_), Err(e)) => Err(e),
            (Ok(dirs), Ok(fields)) => if index < fields.len() && text::trimmed(
                fields[index as int],
            ).len() > 0 {
                Ok(dirs.push(text::trimmed(fields[index as int])))
            } else {
                Ok(dirs)
            },
        }
    }
}

/// The directories of a table with these headers and rows.
pub open spec fn directories_of(
    has_bom: bool,
    headers: Result<Seq<Seq<char>>, Seq<char>>,
    rows: Seq<Result<Seq<Seq<char>>, Seq<char>>>,
) -> Result<Seq<Seq<char>>, Seq<char>> {
    match headers {
        Err(e) => Err(e),
        Ok(names) => match directory_index(names, has_bom) {
            None => Ok(Seq::empty()),
            Some(index) => column(rows, index),
        },
    }
}

/// A file that cannot be read or decoded, in words.
pub open spec fn unreadable(path: Seq<char>, cause: Seq<char>) -> Seq<char> {
    "unable to read "@ + path + ": "@ + cause
}

/// The directories that a CSV flags; none where there is no such file.
pub open spec fn flagged_in(file: Option<CsvFile>) -> Result<Seq<Seq<char>>, Seq<char>> {
    match file {
        None => Ok(Seq::empty()),
        Some(f) => match f.contents {
            Err(e) => Err(unreadable(f.path@, e@)),
            Ok(data) => match directories_of(
                begins_with_bom(data@),
                csv_headers(data@, true),
                csv_records(data@, true),
            ) {
                Ok(dirs) => Ok(dirs),
                Err(e) => Err(unreadable(f.path@, e)),
            },
        },
    }
}

/// Whether `data` begins with the UTF-8 byte order mark.
pub fn has_bom(data: &[u8]) -> (r: bool)
    ensures
        r == begins_with_bom(data@),
{
    data.len() >= 3 && data[0] == 0xEF && data[1] == 0xBB && data[2] == 0xBF
}

/// Finds the `Directory` column among the headers.
pub fn find_directory(headers: &[String], has_bom: bool) -> (r: Option<usize>)
    ensures
        match r {
            Some(i) => directory_index(headers.deep_view(), has_bom) == Some(i as nat),
            None => directory_index(headers.deep_view(), has_bom) is None,
        },
{
    let ghost names = headers.deep_view();
    let mut i: usize = 0;
    while i < headers.len()
        invariant
            names == headers.deep_view(),
            i <= names.len(),
            directory_index(names.take(i as int), has_bom) is None,
        decreases names.len() - i,
    {
        assert(names.take(i + 1).drop_last() =~= names.take(i as int));
        if text::same_text(headers[i].as_str(), "Directory") && !(i == 0 && has_bom) {
            proof {
                lemma_first_directory_stays(names, has_bom, i + 1);
            }
            return Some(i);
        }
        i = i + 1;
    }
    assert(names.take(names.len() as int) =~= names);
    None
}

/// Further headers do not move the column.
proof fn lemma_first_directory_stays(headers: Seq<Seq<char>>, has_bom: bool, n: int)
    requires
        0 <= n <= headers.len(),
        directory_index(headers.take(n), has_bom) is Some,
    ensures
        directory_index(headers, has_bom) == directory_index(headers.take(n), has_bom),
    decreases headers.len() - n,
{
    if n < headers.len() {
        assert(headers.take(n + 1).drop_last() =~= headers.take(n));
        lemma_first_directory_stays(headers, has_bom, n + 1);
    } else {
        assert(headers.take(n) =~= headers);
    }
}

/// A row's error is final.
proof fn lemma_first_error_stays(
    rows: Seq<Result<Seq<Seq<char>>, Seq<char>>>,
    index: nat,
    n: int,
)
    requires
        0 <= n <= rows.len(),
        column(rows.take(n), index) is Err,
    ensures
        column(rows, index) == column(rows.take(n), index),
    decreases rows.len() - n,
{
    if n < rows.len() {
        assert(rows.take(n + 1).drop_last() =~= rows.take(n));
        lemma_first_error_stays(rows, index, n + 1);
    } else {
        assert(rows.take(n) =~= rows);
    }
}

/// Reads one column: the trimmed fields that hold something, or the first row's
/// error.
pub fn read_column(rows: &Vec<Result<Vec<String>, String>>, index: usize) -> (r: Result<
    Vec<String>,
    String,
>)
    ensures
        row_view(r) == column(rows_view(rows@), index as nat),
{
    let ghost all = rows_view(rows@);
    let mut dirs: Vec<String> = Vec::new();
    let mut i: usize = 0;
    assert(dirs.deep_view() =~= Seq::<Seq<char>>::empty());
    while i < rows.len()
        invariant
            all == rows_view(rows@),
            i <= rows@.len(),
            column(all.take(i as int), index as nat) == Ok::<Seq<Seq<char>>, Seq<char>>(
                dirs.deep_view(),
            ),
        decreases rows@.len() - i,
    {
        let ghost before = dirs.deep_view();
        assert(all.take(i + 1).drop_last() =~= all.take(i as int));
        assert(all.take(i + 1).last() == row_view(rows@[i as int]));
        match &rows[i] {
            Err(e) => {
                proof {
                    lemma_first_error_stays(all, index as nat, i + 1);
                }
                return Err(e.clone());
            },
            Ok(fields) => {
                if index < fields.len() {
                    let dir = fields[index].as_str().trim();
                    if !dir.is_empty() {
                        dirs.push(dir.to_owned());
                        assert(dirs.deep_view() =~= before.push(dir@));
                    }
                }
            },
        }
        i = i + 1;
    }
    assert(all.take(all.len() as int) =~= all);
    Ok(dirs)
}

/// The directories of a table: its `Directory` column, or none where it has no
/// such column.
pub fn table_directories(
    has_bom: bool,
    headers: Result<Vec<String>, String>,
    rows: &Vec<Result<Vec<String>, String>>,
) -> (r: Result<Vec<String>, String>)
    ensures
        row_view(r) == directories_of(has_bom, row_view(headers), rows_view(rows@)),
{
    match headers {
        Err(e) => Err(e),
        Ok(names) => match find_directory(names.as_slice(), has_bom) {
            None => {
                let none: Vec<String> = Vec::new();
                assert(none.deep_view() =~= Seq::<Seq<char>>::empty());
                Ok(none)
            },
            Some(index) => read_column(rows, index),
        },
    }
}

/// Words a file that cannot be read or decoded.
pub fn unreadable_text(path: &str, cause: &str) -> (r: String)
    ensures
        r@ == unreadable(path@, cause@),
{
    let mut line = "unable to read ".to_owned();
    line.append(path);
    line.append(": ");
    line.append(cause);
    line
}

/// The `Directory` column of one of Sol's warning CSVs.
///
/// A missing file is fine: Sol only drops the CSV when there is something to
/// flag. A file that cannot be read or decoded is an error, so that the command
/// fails loudly rather than treat the stage as not flagged.
pub fn load_csv_dirs(file: Option<&CsvFile>) -> (r: Result<Vec<String>, String>)
    ensures
        row_view(r) == flagged_in(
            match file {
                Some(f) => Some(*f),
                None => None,
            },
        ),
{
    match file {
        None => {
            let none: Vec<String> = Vec::new();
            assert(none.deep_view() =~= Seq::<Seq<char>>::empty());
            Ok(none)
        },
        Some(f) => match &f.contents {
            Err(e) => Err(unreadable_text(f.path.as_str(), e.as_str())),
            Ok(data) => {
                let headers = header_row(data.as_slice(), true);
                let rows = record_rows(data.as_slice(), true);
                match table_directories(has_bom(data.as_slice()), headers, &rows) {
                    Ok(dirs) => Ok(dirs),
                    Err(e) => Err(unreadable_text(f.path.as_str(), e.as_str())),
                }
            },
        },
    }
}

/// Whether the header at `i` names the `Directory` column.
pub open spec fn names_directory(headers: Seq<Seq<char>>, has_bom: bool, i: int) -> bool {
    headers[i] == "Directory"@ && !(i == 0 && has_bom)
}

/// The column is the first whose header names it; behind a byte order mark the
/// first header names nothing.
pub proof fn directory_column_is_the_first(headers: Seq<Seq<char>>, has_bom: bool)
    ensures
        match directory_index(headers, has_bom) {
            Some(i) => i < headers.len() && names_directory(headers, has_bom, i as int)
                && forall|j: int| 0 <= j < i ==> !#[trigger] names_directory(headers, has_bom, j),
            None => forall|j: int|
                0 <= j < headers.len() ==> !#[trigger] names_directory(headers, has_bom, j),
        },
        has_bom ==> directory_index(headers, has_bom) != Some(0nat),
    decreases headers.len(),
{
    if headers.len() > 0 {
        let init = headers.drop_last();
        directory_column_is_the_first(init, has_bom);
        assert forall|j: int| 0 <= j < init.len() implies names_directory(headers, has_bom, j)
            == #[trigger] names_directory(init, has_bom, j) by {}
        match directory_index(headers, has_bom) {
            Some(i) => {
                assert forall|j: int| 0 <= j < i implies !#[trigger] names_directory(
                    headers,
                    has_bom,
                    j,
                ) by {
                    assert(!names_directory(init, has_bom, j));
                }
            },
            None => {
                assert forall|j: int| 0 <= j < headers.len() implies !#[trigger] names_directory(
                    headers,
                    has_bom,
                    j,
                ) by {
                    if j < init.len() {
                        assert(!names_directory(init, has_bom, j));
                    }
                }
            },
        }
    }
}

/// Every directory that a table flags is a text without white space at its ends,
/// and none is empty.
pub proof fn directories_are_trimmed(rows: Seq<Result<Seq<Seq<char>>, Seq<char>>>, index: nat)
    requires
        column(rows, index) is Ok,
    ensures
        forall|k: int|
            0 <= k < column(rows, index)->Ok_0.len() ==> {
                let dir = #[trigger] column(rows, index)->Ok_0[k];
                dir.len() > 0 && !text::white_space(dir.first()) && !text::white_space(dir.last())
            },
    decreases rows.len(),
{
    if rows.len() > 0 {
        let init = rows.drop_last();
        directories_are_trimmed(init, index);
        let before = column(init, index)->Ok_0;
        let dirs = column(rows, index)->Ok_0;
        assert forall|k: int| 0 <= k < dirs.len() implies {
            let dir = #[trigger] dirs[k];
            dir.len() > 0 && !text::white_space(dir.first()) && !text::white_space(dir.last())
        } by {
            if k < before.len() {
                assert(dirs[k] == before[k]);
            } else {
                text::trimmed_has_no_outer_space(rows.last()->Ok_0[index as int]);
            }
        }
    }
}

/// The byte order mark is the three bytes `EF BB BF`, at the very start.
pub proof fn bom_is_three_bytes(data: Seq<u8>)
    ensures
        begins_with_bom(data) <==> data.len() >= 3 && data[0] == 0xEF && data[1] == 0xBB && data[2]
            == 0xBF,
{
    let mark = seq![0xEFu8, 0xBBu8, 0xBFu8];
    if data.len() >= 3 && data[0] == 0xEF && data[1] == 0xBB && data[2] == 0xBF {
        assert(mark =~= data.take(3));
    }
    if mark.is_prefix_of(data) {
        assert(mark[0] == data[0] && mark[1] == data[1] && mark[2] == data[2]);
    }
}

/// A column is read row by row: rows that follow add what they would give alone, and
/// the first error stands.
pub proof fn columns_are_read_row_by_row(
    a: Seq<Result<Seq<Seq<char>>, Seq<char>>>,
    b: Seq<Result<Seq<Seq<char>>, Seq<char>>>,
    index: nat,
)
    ensures
        match (column(a, index), column(b, index)) {
            (Ok(x), Ok(y)) => column(a + b, index) == Ok::<Seq<Seq<char>>, Seq<char>>(x + y),
            (Err(e), _) => column(a + b, index) == Err::<Seq<Seq<char>>, Seq<char>>(e),
            (Ok(_), Err(e)) => column(a + b, index) == Err::<Seq<Seq<char>>, Seq<char>>(e),
        },
    decreases b.len(),
{
    if b.len() == 0 {
        assert(a + b =~= a);
        if let Ok(x) = column(a, index) {
            assert(x + Seq::<Seq<char>>::empty() =~= x);
        }
    } else {
        columns_are_read_row_by_row(a, b.drop_last(), index);
        assert((a + b).drop_last() =~= a + b.drop_last());
        if let (Ok(x), Ok(y)) = (column(a, index), column(b.drop_last(), index)) {
            if let Ok(fields) = b.last() {
                if index < fields.len() {
                    let dir = text::trimmed(fields[index as int]);
                    assert((x + y).push(dir) =~= x + y.push(dir));
                }
            }
        }
    }
}

/// A single row gives its trimmed field, unless it has no such field or the field is
/// blank; a row that could not be decoded gives its error.
pub proof fn a_row_gives_its_field(row: Result<Seq<Seq<char>>, Seq<char>>, index: nat)
    ensures
        match row {
            Err(e) => column(seq![row], index) == Err::<Seq<Seq<char>>, Seq<char>>(e),
            Ok(fields) => column(seq![row], index) matches Ok(dirs) && (if index < fields.len()
                && text::trimmed(fields[index as int]).len() > 0 {
                dirs.len() == 1 && dirs[0] == text::trimmed(fields[index as int])
            } else {
                dirs.len() == 0
            }),
        },
{
    assert(seq![row].drop_last() =~= Seq::<Result<Seq<Seq<char>>, Seq<char>>>::empty());
    assert(column(seq![row].drop_last(), index) == Ok::<Seq<Seq<char>>, Seq<char>>(Seq::empty()));
    assert(seq![row].last() == row);
}

/// Whether a row lists `dir` in the column.
pub open spec fn lists(row: Result<Seq<Seq<char>>, Seq<char>>, index: nat, dir: Seq<char>) -> bool {
    row matches Ok(fields) && index < fields.len() && text::trimmed(fields[index as int]) == dir
        && dir.len() > 0
}

/// A column holds a directory exactly where a row lists it, and it can be read exactly
/// where every row can.
pub proof fn columns_hold_what_the_rows_list(
    rows: Seq<Result<Seq<Seq<char>>, Seq<char>>>,
    index: nat,
    dir: Seq<char>,
)
    ensures
        column(rows, index) is Ok <==> forall|i: int| 0 <= i < rows.len() ==> (#[trigger] rows[i]) is Ok,
        column(rows, index) is Ok ==> (column(rows, index)->Ok_0.contains(dir) <==> exists|i: int|
            0 <= i < rows.len() && lists(#[trigger] rows[i], index, dir)),
    decreases rows.len(),
{
    if rows.len() == 0 {
        assert(column(rows, index) == Ok::<Seq<Seq<char>>, Seq<char>>(Seq::empty()));
    } else {
        let init = rows.drop_last();
        columns_hold_what_the_rows_list(init, index, dir);
        if forall|i: int| 0 <= i < rows.len() ==> (#[trigger] rows[i]) is Ok {
            assert forall|i: int| 0 <= i < init.len() implies (#[trigger] init[i]) is Ok by {
                assert(rows[i] is Ok);
            }
            assert(rows[rows.len() - 1] is Ok);
        }
        if column(rows, index) is Ok {
            assert forall|i: int| 0 <= i < rows.len() implies (#[trigger] rows[i]) is Ok by {
                if i < init.len() {
                    assert(init[i] is Ok);
                }
            }
            let before = column(init, index)->Ok_0;
            let all = column(rows, index)->Ok_0;
            if all.contains(dir) {
                let k = choose|k: int| 0 <= k < all.len() && all[k] == dir;
                if k < before.len() {
                    assert(before[k] == dir);
                    let i = choose|i: int| 0 <= i < init.len() && lists(#[trigger] init[i], index, dir);
                    assert(lists(rows[i], index, dir));
                } else {
                    assert(lists(rows[rows.len() - 1], index, dir));
                }
            }
            if exists|i: int| 0 <= i < rows.len() && lists(#[trigger] rows[i], index, dir) {
                let i = choose|i: int| 0 <= i < rows.len() && lists(#[trigger] rows[i], index, dir);
                if i < init.len() {
                    assert(lists(init[i], index, dir));
                    let k = choose|k: int| 0 <= k < before.len() && before[k] == dir;
                    assert(all[k] == dir);
                } else {
                    assert(all[all.len() - 1] == dir);
                }
            }
        }
    }
}

/// A table without the column flags nothing, whatever its rows; one whose header row
/// cannot be decoded is an error; any other flags what the column holds.
pub proof fn tables_flag_their_column(
    has_bom: bool,
    headers: Result<Seq<Seq<char>>, Seq<char>>,
    rows: Seq<Result<Seq<Seq<char>>, Seq<char>>>,
)
    ensures
        match headers {
            Err(e) => directories_of(has_bom, headers, rows) == Err::<Seq<Seq<char>>, Seq<char>>(e),
            Ok(names) => {
                &&& (forall|j: int|
                    0 <= j < names.len() ==> !#[trigger] names_directory(names, has_bom, j)) ==> (
                directories_of(has_bom, headers, rows) matches Ok(dirs) && dirs.len() == 0)
                &&& forall|i: int|
                    0 <= i < names.len() && names_directory(names, has_bom, i) && (forall|j: int|
                        0 <= j < i ==> !#[trigger] names_directory(names, has_bom, j))
                        ==> directories_of(has_bom, headers, rows) == #[trigger] column(
                        rows,
                        i as nat,
                    )
            },
        },
{
    if let Ok(names) = headers {
        directory_column_is_the_first(names, has_bom);
        assert forall|i: int|
            0 <= i < names.len() && names_directory(names, has_bom, i) && (forall|j: int|
                0 <= j < i ==> !#[trigger] names_directory(names, has_bom, j)) implies directories_of(
            has_bom,
            headers,
            rows,
        ) == #[trigger] column(rows, i as nat) by {
            let k = directory_index(names, has_bom)->0 as int;
            assert(names_directory(names, has_bom, k));
            if k < i {
                assert(!names_directory(names, has_bom, k));
            }
            if i < k {
                assert(!names_directory(names, has_bom, i));
            }
        }
    }
}

/// The words for a file that cannot be read name the file, and end with the cause.
pub proof fn unreadable_names_file_and_cause(path: Seq<char>, cause: Seq<char>)
    ensures
        ("unable to read "@ + path + ": "@).is_prefix_of(unreadable(path, cause)),
        cause.is_suffix_of(unreadable(path, cause)),
        unreadable(path, cause).len() == 17 + path.len() + cause.len(),
{
    reveal_strlit("unable to read ");
    reveal_strlit(": ");
    assert("unable to read "@.len() == 15 && ": "@.len() == 2);
    let r = unreadable(path, cause);
    let n = ("unable to read "@ + path + ": "@).len() as int;
    assert(r.take(n) =~= "unable to read "@ + path + ": "@);
    assert(r.skip(n) =~= cause);
}

/// A missing CSV flags nothing; one that cannot be read, or in which the table cannot,
/// is an error that names it; and any other flags what its table flags.
pub proof fn csvs_flag_their_table(file: CsvFile)
    ensures
        flagged_in(None) matches Ok(dirs) && dirs.len() == 0,
        match file.contents {
            Err(e) => flagged_in(Some(file)) matches Err(m) && ("unable to read "@ + file.path@
                + ": "@).is_prefix_of(m) && e@.is_suffix_of(m),
            Ok(data) => match directories_of(
                begins_with_bom(data@),
                csv_headers(data@, true),
                csv_records(data@, true),
            ) {
                Ok(dirs) => flagged_in(Some(file)) == Ok::<Seq<Seq<char>>, Seq<char>>(dirs),
                Err(e) => flagged_in(Some(file)) matches Err(m) && ("unable to read "@ + file.path@
                    + ": "@).is_prefix_of(m) && e.is_suffix_of(m),
            },
        },
{
    match file.contents {
        Err(e) => {
            unreadable_names_file_and_cause(file.path@, e@);
        },
        Ok(data) => {
            if let Err(e) = directories_of(
                begins_with_bom(data@),
                csv_headers(data@, true),
                csv_records(data@, true),
            ) {
                unreadable_names_file_and_cause(file.path@, e);
            }
        },
    }
}

/// Rows are seen as they are, field by field.
pub proof fn rows_are_seen_as_they_are(rows: Seq<Result<Vec<String>, String>>, i: int)
    requires
        0 <= i < rows.len(),
    ensures
        rows_view(rows).len() == rows.len(),
        match rows[i] {
            Err(e) => rows_view(rows)[i] == Err::<Seq<Seq<char>>, Seq<char>>(e@),
            Ok(fields) => rows_view(rows)[i] matches Ok(texts) && texts.len() == fields@.len()
                && forall|k: int|
                0 <= k < texts.len() ==> #[trigger] texts[k] == fields@[k]@,
        },
{
}

} // verus!
