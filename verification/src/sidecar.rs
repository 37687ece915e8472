//! Sidecar files: tables and notes that lie next to audio files and describe
//! them.

use vstd::hash_map::StringHashMap;
use vstd::prelude::*;
use vstd::utf8::{decode_utf8, valid_utf8};

use crate::formats::{
    is_audio_extension, is_audio_file, sidecar_format, sidecar_format_of, SidecarFormat,
};
use crate::numbers::{decimal, write_i64};
use crate::paths::{extension, extension_of, file_stem, file_stem_of};
use crate::text::{
    copy_opt, cut_at_first, is_listed, lowercase, opt_text, pieces, split, split_once,
    str_texts, texts, trim, trimmed, Separator,
};

verus! {

// ---------------------------------------------------------------------------
// The index
// ---------------------------------------------------------------------------

/// What a sidecar says of one file, and which sidecar says it.
#[derive(Debug)]
pub struct SidecarMeta {
    pub description: Option<String>,
    pub tags: Option<String>,
    pub source: String,
}

/// The contents of a `SidecarMeta`.
#[verifier::ext_equal]
pub struct MetaView {
    pub description: Option<Seq<char>>,
    pub tags: Option<Seq<char>>,
    pub source: Seq<char>,
}

impl View for SidecarMeta {
    type V = MetaView;

    open spec fn view(&self) -> MetaView {
        MetaView {
            description: opt_text(self.description),
            tags: opt_text(self.tags),
            source: self.source@,
        }
    }
}

impl Default for SidecarMeta {
    /// Nothing said, by nobody.
    fn default() -> (r: SidecarMeta)
        ensures
            r@ == (MetaView { description: None, tags: None, source: Seq::empty() }),
    {
        SidecarMeta { description: None, tags: None, source: String::new() }
    }
}

impl Clone for SidecarMeta {
    /// The same contents once more.
    fn clone(&self) -> (r: SidecarMeta)
        ensures
            r@ == self@,
    {
        SidecarMeta {
            description: copy_opt(&self.description),
            tags: copy_opt(&self.tags),
            source: self.source.as_str().to_owned(),
        }
    }
}

/// What the sidecars of one folder say. The keys are file names in lower case,
/// and the same names without their extension, so that a lookup can try either
/// form.
pub struct SidecarIndex {
    entries: StringHashMap<SidecarMeta>,
}

impl View for SidecarIndex {
    type V = Map<Seq<char>, MetaView>;

    closed spec fn view(&self) -> Map<Seq<char>, MetaView> {
        self.entries@.map_values(|m: SidecarMeta| m@)
    }
}

/// `index` with `meta` under `key`, unless there is something under it already.
pub open spec fn with_missing(
    index: Map<Seq<char>, MetaView>,
    key: Seq<char>,
    meta: MetaView,
) -> Map<Seq<char>, MetaView> {
    if index.contains_key(key) {
        index
    } else {
        index.insert(key, meta)
    }
}

/// The key of a lower case file name without its extension.
pub open spec fn stem_key(lower: Seq<char>) -> Seq<char> {
    match file_stem_of(lower) {
        Some(stem) => stem,
        None => lower,
    }
}

/// `index` with an entry for a lower case file name, under both its keys.
pub open spec fn with_keys(
    index: Map<Seq<char>, MetaView>,
    lower: Seq<char>,
    meta: MetaView,
) -> Map<Seq<char>, MetaView> {
    with_missing(with_missing(index, lower, meta), stem_key(lower), meta)
}

/// `index` with an entry for a file name as a sidecar writes it. A blank name
/// adds nothing.
pub open spec fn with_entry(
    index: Map<Seq<char>, MetaView>,
    filename: Seq<char>,
    meta: MetaView,
) -> Map<Seq<char>, MetaView> {
    if trimmed(filename).len() == 0 {
        index
    } else {
        with_keys(index, lowercase(trimmed(filename)), meta)
    }
}

/// What the index says of a file: under its name, or else under its stem.
pub open spec fn described(
    index: Map<Seq<char>, MetaView>,
    filename: Seq<char>,
    stem: Seq<char>,
) -> Option<MetaView> {
    if index.contains_key(lowercase(filename)) {
        Some(index[lowercase(filename)])
    } else if index.contains_key(lowercase(stem)) {
        Some(index[lowercase(stem)])
    } else {
        None
    }
}

impl SidecarIndex {
    /// An index without entries.
    pub fn new() -> (r: SidecarIndex)
        ensures
            r@ == Map::<Seq<char>, MetaView>::empty(),
    {
        let r = SidecarIndex { entries: StringHashMap::new() };
        assert(r@ =~= Map::<Seq<char>, MetaView>::empty());
        r
    }

    /// What stands under a key.
    pub fn get(&self, key: &str) -> (r: Option<&SidecarMeta>)
        ensures
            match r {
                Some(m) => self@.contains_key(key@) && self@[key@] == m@,
                None => !self@.contains_key(key@),
            },
    {
        self.entries.get(key)
    }

    /// Puts `meta` under `key`, unless there is something under it already.
    pub fn insert_missing(&mut self, key: String, meta: SidecarMeta)
        ensures
            final(self)@ == with_missing(old(self)@, key@, meta@),
    {
        if self.entries.get(key.as_str()).is_none() {
            self.entries.insert(key, meta);
        }
        assert(self@ =~= with_missing(old(self)@, key@, meta@));
    }

    /// What the index says of a file: under its name, or else under its stem.
    pub fn lookup(&self, filename: &str, stem: &str) -> (r: Option<&SidecarMeta>)
        ensures
            match r {
                Some(m) => described(self@, filename@, stem@) == Some(m@),
                None => described(self@, filename@, stem@) is None,
            },
    {
        match self.get(filename.to_lowercase().as_str()) {
            Some(m) => Some(m),
            None => self.get(stem.to_lowercase().as_str()),
        }
    }
}

/// Enters a lower case file name under both its keys.
pub fn insert_keys(index: &mut SidecarIndex, lower: String, meta: SidecarMeta)
    ensures
        final(index)@ == with_keys(old(index)@, lower@, meta@),
{
    let stem = match file_stem(lower.as_str()) {
        Some(s) => s,
        None => lower.as_str().to_owned(),
    };
    index.insert_missing(lower, meta.clone());
    index.insert_missing(stem, meta);
}

/// Enters what a sidecar says of a file. The first entry for a key stays.
pub fn insert_entry(index: &mut SidecarIndex, filename: &str, meta: SidecarMeta)
    ensures
        final(index)@ == with_entry(old(index)@, filename@, meta@),
{
    let name = trim(filename);
    if !name.as_str().is_empty() {
        insert_keys(index, name.as_str().to_lowercase(), meta);
    }
}

// ---------------------------------------------------------------------------
// Tables
// ---------------------------------------------------------------------------

/// The headers of the column with the file names.
pub open spec fn filename_header_names() -> Seq<Seq<char>> {
    seq!["filename"@, "file name"@, "file"@, "name"@, "sample"@, "asset"@]
}

/// The headers of the column with the descriptions.
pub open spec fn description_header_names() -> Seq<Seq<char>> {
    seq!["description"@, "desc"@, "notes"@, "note"@, "summary"@, "comment"@]
}

/// The headers of the column with the tags.
pub open spec fn tags_header_names() -> Seq<Seq<char>> {
    seq!["tags"@, "keywords"@, "category"@, "categories"@, "genre"@]
}

/// The headers of the column with the file names.
pub fn filename_headers() -> (r: Vec<&'static str>)
    ensures
        str_texts(r@) == filename_header_names(),
{
    let r: Vec<&'static str> = vec!["filename", "file name", "file", "name", "sample", "asset"];
    assert(str_texts(r@) =~= filename_header_names());
    r
}

/// The headers of the column with the descriptions.
pub fn description_headers() -> (r: Vec<&'static str>)
    ensures
        str_texts(r@) == description_header_names(),
{
    let r: Vec<&'static str> = vec!["description", "desc", "notes", "note", "summary", "comment"];
    assert(str_texts(r@) =~= description_header_names());
    r
}

/// The headers of the column with the tags.
pub fn tags_headers() -> (r: Vec<&'static str>)
    ensures
        str_texts(r@) == tags_header_names(),
{
    let r: Vec<&'static str> = vec!["tags", "keywords", "category", "categories", "genre"];
    assert(str_texts(r@) =~= tags_header_names());
    r
}

/// Whether a header, in whatever case and with white space around it, is one
/// of the candidates.
pub open spec fn is_header(header: Seq<char>, candidates: Seq<Seq<char>>) -> bool {
    candidates.contains(lowercase(trimmed(header)))
}

/// The first column whose header is one of the candidates.
pub open spec fn header_position(
    headers: Seq<Seq<char>>,
    candidates: Seq<Seq<char>>,
) -> Option<int>
    decreases headers.len(),
{
    if headers.len() == 0 {
        None
    } else {
        match header_position(headers.drop_last(), candidates) {
            Some(i) => Some(i),
            None => if is_header(headers.last(), candidates) {
                Some(headers.len() - 1)
            } else {
                None
            },
        }
    }
}

/// The first column whose header is one of the candidates.
pub fn header_index(headers: &Vec<String>, candidates: &Vec<&'static str>) -> (r: Option<usize>)
    ensures
        match r {
            Some(i) => i < headers@.len() && header_position(
                texts(headers@),
                str_texts(candidates@),
            ) == Some(i as int),
            None => header_position(texts(headers@), str_texts(candidates@)) is None,
        },
{
    let ghost all = texts(headers@);
    let ghost names = str_texts(candidates@);
    let mut i: usize = 0;
    while i < headers.len()
        invariant
            all == texts(headers@),
            names == str_texts(candidates@),
            i <= headers@.len(),
            header_position(all.take(i as int), names) is None,
        decreases headers@.len() - i,
    {
        assert(all.take(i + 1).drop_last() =~= all.take(i as int));
        assert(all.take(i + 1).last() == headers@[i as int]@);
        let name = trim(headers[i].as_str()).as_str().to_lowercase();
        if is_listed(candidates, name.as_str()) {
            proof {
                header_position_is_kept(all, names, i + 1);
            }
            return Some(i);
        }
        i += 1;
    }
    assert(all.take(all.len() as int) =~= all);
    None
}

/// A header found among the first ones is found among all.
proof fn header_position_is_kept(headers: Seq<Seq<char>>, candidates: Seq<Seq<char>>, n: int)
    requires
        0 <= n <= headers.len(),
        header_position(headers.take(n), candidates) is Some,
    ensures
        header_position(headers, candidates) == header_position(headers.take(n), candidates),
    decreases headers.len(),
{
    if n == headers.len() {
        assert(headers.take(n) =~= headers);
    } else {
        assert(headers.drop_last().take(n) =~= headers.take(n));
        header_position_is_kept(headers.drop_last(), candidates, n);
    }
}

/// The column found first is one of those asked for, and none before it is.
pub proof fn header_position_is_first(headers: Seq<Seq<char>>, candidates: Seq<Seq<char>>)
    ensures
        match header_position(headers, candidates) {
            Some(i) => 0 <= i < headers.len() && is_header(headers[i], candidates) && (forall|j: int|
                0 <= j < i ==> !is_header(#[trigger] headers[j], candidates)),
            None => forall|j: int|
                0 <= j < headers.len() ==> !is_header(#[trigger] headers[j], candidates),
        },
    decreases headers.len(),
{
    if headers.len() > 0 {
        let rest = headers.drop_last();
        header_position_is_first(rest, candidates);
        assert forall|j: int| 0 <= j < rest.len() implies rest[j] == headers[j] by {}
    }
}

/// The field of a row in a column, when there is such a column and the row is
/// that long.
pub open spec fn field(row: Seq<Seq<char>>, column: Option<int>) -> Option<Seq<char>> {
    match column {
        Some(i) => if 0 <= i < row.len() {
            Some(row[i])
        } else {
            None
        },
        None => None,
    }
}

/// The file name that a row is about: that of the file name column, or of the
/// first column when no header names one.
pub open spec fn row_filename(headers: Seq<Seq<char>>, row: Seq<Seq<char>>) -> Seq<char> {
    let column = match header_position(headers, filename_header_names()) {
        Some(i) => i,
        None => 0,
    };
    match field(row, Some(column)) {
        Some(name) => name,
        None => Seq::empty(),
    }
}

/// What a row says of its file.
pub open spec fn row_meta(
    headers: Seq<Seq<char>>,
    row: Seq<Seq<char>>,
    source: Seq<char>,
) -> MetaView {
    MetaView {
        description: field(row, header_position(headers, description_header_names())),
        tags: field(row, header_position(headers, tags_header_names())),
        source,
    }
}

/// `index` with an entry for each row of a table, in order.
pub open spec fn with_rows(
    index: Map<Seq<char>, MetaView>,
    headers: Seq<Seq<char>>,
    rows: Seq<Seq<Seq<char>>>,
    source: Seq<char>,
) -> Map<Seq<char>, MetaView>
    decreases rows.len(),
{
    if rows.len() == 0 {
        index
    } else {
        with_entry(
            with_rows(index, headers, rows.drop_last(), source),
            row_filename(headers, rows.last()),
            row_meta(headers, rows.last(), source),
        )
    }
}

/// The contents of the records of a table.
pub open spec fn record_texts(
    records: Seq<Option<Vec<String>>>,
) -> Seq<Option<Seq<Seq<char>>>> {
    records.map_values(
        |record: Option<Vec<String>>|
            match record {
                Some(fields) => Some(texts(fields@)),
                None => None,
            },
    )
}

/// The records that could be read, in order.
pub open spec fn readable(records: Seq<Option<Seq<Seq<char>>>>) -> Seq<Seq<Seq<char>>>
    decreases records.len(),
{
    if records.len() == 0 {
        Seq::empty()
    } else {
        let before = readable(records.drop_last());
        match records.last() {
            Some(fields) => before.push(fields),
            None => before,
        }
    }
}

/// The field of a row in a column.
fn read_field(row: &Vec<String>, column: Option<usize>) -> (r: Option<String>)
    ensures
        opt_text(r) == field(
            texts(row@),
            match column {
                Some(i) => Some(i as int),
                None => None,
            },
        ),
{
    match column {
        Some(i) => if i < row.len() {
            Some(row[i].as_str().to_owned())
        } else {
            None
        },
        None => None,
    }
}

/// Enters each row of a table, and leaves out those that could not be read.
pub fn index_table(
    index: &mut SidecarIndex,
    headers: &Vec<String>,
    rows: &Vec<Option<Vec<String>>>,
    source: &str,
)
    ensures
        final(index)@ == with_rows(
            old(index)@,
            texts(headers@),
            readable(record_texts(rows@)),
            source@,
        ),
{
    let name_column: usize = match header_index(headers, &filename_headers()) {
        Some(i) => i,
        None => 0,
    };
    let description_column: Option<usize> = header_index(headers, &description_headers());
    let tags_column: Option<usize> = header_index(headers, &tags_headers());
    let ghost heads = texts(headers@);
    let ghost all = record_texts(rows@);
    let mut i: usize = 0;
    while i < rows.len()
        invariant
            heads == texts(headers@),
            all == record_texts(rows@),
            i <= rows@.len(),
            name_column as int == (match header_position(heads, filename_header_names()) {
                Some(c) => c,
                None => 0,
            }),
            (match description_column {
                Some(c) => Some(c as int),
                None => None,
            }) == header_position(heads, description_header_names()),
            (match tags_column {
                Some(c) => Some(c as int),
                None => None,
            }) == header_position(heads, tags_header_names()),
            index@ == with_rows(old(index)@, heads, readable(all.take(i as int)), source@),
        decreases rows@.len() - i,
    {
        assert(all.take(i + 1).drop_last() =~= all.take(i as int));
        assert(all.take(i + 1).last() == all[i as int]);
        if let Some(row) = &rows[i] {
            let ghost before = readable(all.take(i as int));
            assert(all[i as int] == Some(texts(row@)));
            let filename = match read_field(row, Some(name_column)) {
                Some(name) => name,
                None => String::new(),
            };
            let meta = SidecarMeta {
                description: read_field(row, description_column),
                tags: read_field(row, tags_column),
                source: source.to_owned(),
            };
            assert(filename@ =~= row_filename(heads, texts(row@)));
            assert(meta@ =~= row_meta(heads, texts(row@), source@));
            insert_entry(index, filename.as_str(), meta);
            assert(before.push(texts(row@)).drop_last() =~= before);
        }
        i += 1;
    }
    assert(all.take(all.len() as int) =~= all);
}

// ---------------------------------------------------------------------------
// Comma-separated values
// ---------------------------------------------------------------------------

/// The first record of the data, when it can be read.
pub uninterp spec fn csv_header_fields(data: Seq<u8>, flexible: bool) -> Option<Seq<Seq<char>>>;

/// The records behind the first one; `None` stands for one that cannot be read.
pub uninterp spec fn csv_record_fields(
    data: Seq<u8>,
    flexible: bool,
) -> Seq<Option<Seq<Seq<char>>>>;

/// `csv::Reader::headers` on a reader of the given bytes: the fields of the
/// first record, or nothing when they are not UTF-8. The grammar is the csv
/// crate's own, so the result is only named; `flexible` says whether records
/// may differ in length.
#[verifier::external_body]
fn csv_headers(data: &Vec<u8>, flexible: bool) -> (r: Option<Vec<String>>)
    ensures
        match r {
            Some(fields) => csv_header_fields(data@, flexible) == Some(texts(fields@)),
            None => csv_header_fields(data@, flexible) is None,
        },
{
    let mut reader = csv::ReaderBuilder::new().flexible(flexible).from_reader(data.as_slice());
    let headers = reader.headers().ok()?;
    Some(headers.iter().map(String::from).collect())
}

/// `csv::Reader::records` on a reader of the given bytes: the records behind
/// the first, in order, with `None` in the place of one that is refused. The
/// grammar is the csv crate's own, so the result is only named.
#[verifier::external_body]
fn csv_records(data: &Vec<u8>, flexible: bool) -> (r: Vec<Option<Vec<String>>>)
    ensures
        record_texts(r@) == csv_record_fields(data@, flexible),
{
    let mut reader = csv::ReaderBuilder::new().flexible(flexible).from_reader(data.as_slice());
    reader
        .records()
        .map(|record| record.ok().map(|fields| fields.iter().map(String::from).collect()))
        .collect()
}

/// `index` with what a table of comma-separated values says, when its headers
/// can be read.
pub open spec fn with_csv(
    index: Map<Seq<char>, MetaView>,
    data: Seq<u8>,
    source: Seq<char>,
) -> Map<Seq<char>, MetaView> {
    match csv_header_fields(data, true) {
        Some(headers) => with_rows(
            index,
            headers,
            readable(csv_record_fields(data, true)),
            source,
        ),
        None => index,
    }
}

/// Enters what a table of comma-separated values says. Its rows may differ in
/// length, and a row that cannot be read is left out.
pub fn parse_csv(index: &mut SidecarIndex, data: &Vec<u8>, source: &str)
    ensures
        final(index)@ == with_csv(old(index)@, data@, source@),
{
    if let Some(headers) = csv_headers(data, true) {
        let rows = csv_records(data, true);
        index_table(index, &headers, &rows, source);
    }
}

// ---------------------------------------------------------------------------
// Spreadsheets
// ---------------------------------------------------------------------------

/// A cell of a spreadsheet.
#[derive(Debug)]
pub enum Cell {
    /// Text.
    Text(String),
    /// A number with a fraction, as it is written in decimal.
    Number(String),
    /// A whole number.
    Integer(i64),
    /// A truth value.
    Flag(bool),
    /// A date, a duration, an error, or nothing.
    Other,
}

/// The contents of a `Cell`.
pub enum CellView {
    Text(Seq<char>),
    Number(Seq<char>),
    Integer(i64),
    Flag(bool),
    Other,
}

impl View for Cell {
    type V = CellView;

    open spec fn view(&self) -> CellView {
        match self {
            Cell::Text(t) => CellView::Text(t@),
            Cell::Number(t) => CellView::Number(t@),
            Cell::Integer(i) => CellView::Integer(*i),
            Cell::Flag(b) => CellView::Flag(*b),
            Cell::Other => CellView::Other,
        }
    }
}

/// A cell as text; what is neither text, number nor truth value is empty.
pub open spec fn cell_text(cell: CellView) -> Seq<char> {
    match cell {
        CellView::Text(t) => t,
        CellView::Number(t) => t,
        CellView::Integer(i) => decimal(i as int),
        CellView::Flag(b) => if b {
            "true"@
        } else {
            "false"@
        },
        CellView::Other => Seq::empty(),
    }
}

/// The contents of a row of cells.
pub open spec fn cell_views(row: Seq<Cell>) -> Seq<CellView> {
    row.map_values(|c: Cell| c@)
}

/// The contents of rows of cells.
pub open spec fn sheet_view(rows: Seq<Vec<Cell>>) -> Seq<Seq<CellView>> {
    rows.map_values(|row: Vec<Cell>| cell_views(row@))
}

/// A row of cells as texts.
pub open spec fn cells_as_texts(row: Seq<CellView>) -> Seq<Seq<char>> {
    row.map_values(|c: CellView| cell_text(c))
}

/// Rows of cells as rows of texts.
pub open spec fn sheet_as_texts(rows: Seq<Seq<CellView>>) -> Seq<Seq<Seq<char>>> {
    rows.map_values(|row: Seq<CellView>| cells_as_texts(row))
}

/// `index` with what a sheet says: its first row holds the headers.
pub open spec fn with_sheet(
    index: Map<Seq<char>, MetaView>,
    sheet: Seq<Seq<CellView>>,
    source: Seq<char>,
) -> Map<Seq<char>, MetaView> {
    if sheet.len() == 0 {
        index
    } else {
        let rows = sheet_as_texts(sheet);
        with_rows(index, rows[0], rows.skip(1), source)
    }
}

/// A cell as text; what is neither text, number nor truth value is empty.
pub fn data_to_string(cell: &Cell) -> (r: String)
    ensures
        r@ == cell_text(cell@),
{
    match cell {
        Cell::Text(t) => t.as_str().to_owned(),
        Cell::Number(t) => t.as_str().to_owned(),
        Cell::Integer(i) => write_i64(*i),
        Cell::Flag(b) => if *b {
            "true".to_owned()
        } else {
            "false".to_owned()
        },
        Cell::Other => String::new(),
    }
}

/// A row of cells as texts.
fn row_to_strings(row: &Vec<Cell>) -> (r: Vec<String>)
    ensures
        texts(r@) == cells_as_texts(cell_views(row@)),
{
    let ghost all = cells_as_texts(cell_views(row@));
    let mut out: Vec<String> = Vec::new();
    let mut i: usize = 0;
    while i < row.len()
        invariant
            all == cells_as_texts(cell_views(row@)),
            i <= row@.len(),
            texts(out@) == all.take(i as int),
        decreases row@.len() - i,
    {
        let ghost before = texts(out@);
        let t = data_to_string(&row[i]);
        let ghost added = t@;
        out.push(t);
        assert(texts(out@) =~= before.push(added));
        i += 1;
        assert(texts(out@) =~= all.take(i as int));
    }
    assert(all.take(all.len() as int) =~= all);
    out
}

/// A table whose rows could all be read is readable as it stands.
proof fn all_readable(records: Seq<Option<Seq<Seq<char>>>>, rows: Seq<Seq<Seq<char>>>)
    requires
        records.len() == rows.len(),
        forall|i: int| 0 <= i < rows.len() ==> #[trigger] records[i] == Some(rows[i]),
    ensures
        readable(records) == rows,
    decreases rows.len(),
{
    if rows.len() > 0 {
        assert forall|i: int| 0 <= i < rows.len() - 1 implies #[trigger] records.drop_last()[i]
            == Some(rows.drop_last()[i]) by {
            assert(records[i] == Some(rows[i]));
        }
        all_readable(records.drop_last(), rows.drop_last());
        assert(records[rows.len() - 1] == Some(rows[rows.len() - 1]));
        assert(readable(records) =~= rows);
    } else {
        assert(readable(records) =~= rows);
    }
}

/// Enters what the first sheet of a workbook says: its first row holds the
/// headers.
pub fn parse_xlsx(index: &mut SidecarIndex, sheet: &Vec<Vec<Cell>>, source: &str)
    ensures
        final(index)@ == with_sheet(old(index)@, sheet_view(sheet@), source@),
{
    if sheet.is_empty() {
        return;
    }
    let headers: Vec<String> = row_to_strings(&sheet[0]);
    let ghost all = sheet_as_texts(sheet_view(sheet@));
    let mut rows: Vec<Option<Vec<String>>> = Vec::new();
    let mut i: usize = 1;
    while i < sheet.len()
        invariant
            all == sheet_as_texts(sheet_view(sheet@)),
            1 <= i <= sheet@.len(),
            rows@.len() == i - 1,
            forall|j: int| 0 <= j < i - 1 ==> #[trigger] record_texts(rows@)[j] == Some(all[j + 1]),
        decreases sheet@.len() - i,
    {
        let ghost before = record_texts(rows@);
        let row = row_to_strings(&sheet[i]);
        assert(texts(row@) == all[i as int]);
        rows.push(Some(row));
        assert forall|j: int| 0 <= j < i implies #[trigger] record_texts(rows@)[j] == Some(
            all[j + 1],
        ) by {
            if j < i - 1 {
                assert(record_texts(rows@)[j] == before[j]);
            }
        }
        i += 1;
    }
    proof {
        let rest = all.skip(1);
        assert forall|j: int| 0 <= j < rest.len() implies #[trigger] record_texts(rows@)[j] == Some(
            rest[j],
        ) by {}
        all_readable(record_texts(rows@), rest);
        assert(texts(headers@) == all[0]);
    }
    index_table(index, &headers, &rows, source);
}

// ---------------------------------------------------------------------------
// Plain text
// ---------------------------------------------------------------------------

/// What can stand between a file name and its description, in the order in
/// which they are tried.
pub open spec fn delimiter_names() -> Seq<Seq<char>> {
    seq![" - "@, ":"@, ","@, "\t"@]
}

/// What can stand between a file name and its description, in the order in
/// which they are tried.
pub fn delimiters() -> (r: Vec<&'static str>)
    ensures
        str_texts(r@) == delimiter_names(),
{
    let r: Vec<&'static str> = vec![" - ", ":", ",", "\t"];
    assert(str_texts(r@) =~= delimiter_names());
    r
}

/// A line cut at the first of the delimiters that has the name of an audio file
/// before it: that name, and the rest.
pub open spec fn name_and_rest(
    line: Seq<char>,
    delims: Seq<Seq<char>>,
) -> Option<(Seq<char>, Seq<char>)>
    decreases delims.len(),
{
    if delims.len() == 0 {
        None
    } else {
        match name_and_rest(line, delims.drop_last()) {
            Some(cut) => Some(cut),
            None => match cut_at_first(line, delims.last()) {
                Some((left, right)) => if is_audio_extension(extension_of(trimmed(left))) {
                    Some((trimmed(left), trimmed(right)))
                } else {
                    None
                },
                None => None,
            },
        }
    }
}

/// `index` with what one line of text says, when it names an audio file.
pub open spec fn with_line(
    index: Map<Seq<char>, MetaView>,
    line: Seq<char>,
    source: Seq<char>,
) -> Map<Seq<char>, MetaView> {
    match name_and_rest(trimmed(line), delimiter_names()) {
        Some((name, rest)) => with_entry(
            index,
            name,
            MetaView { description: Some(rest), tags: None, source },
        ),
        None => index,
    }
}

/// `index` with what each line says, in order.
pub open spec fn with_lines(
    index: Map<Seq<char>, MetaView>,
    lines: Seq<Seq<char>>,
    source: Seq<char>,
) -> Map<Seq<char>, MetaView>
    decreases lines.len(),
{
    if lines.len() == 0 {
        index
    } else {
        with_line(with_lines(index, lines.drop_last(), source), lines.last(), source)
    }
}

/// `index` with what a text says. A line ends at a line feed; a carriage return
/// before it counts as white space around the line.
pub open spec fn with_text(
    index: Map<Seq<char>, MetaView>,
    text: Seq<char>,
    source: Seq<char>,
) -> Map<Seq<char>, MetaView> {
    with_lines(index, pieces(text, Separator::LineFeed), source)
}

/// A line cut at the first of the delimiters that has the name of an audio file
/// before it.
fn split_line(line: &str) -> (r: Option<(String, String)>)
    ensures
        match r {
            Some((name, rest)) => name_and_rest(line@, delimiter_names()) == Some((name@, rest@)),
            None => name_and_rest(line@, delimiter_names()) is None,
        },
{
    let delims: Vec<&'static str> = delimiters();
    let ghost all = delimiter_names();
    let mut i: usize = 0;
    while i < delims.len()
        invariant
            all == str_texts(delims@),
            all == delimiter_names(),
            i <= delims@.len(),
            name_and_rest(line@, all.take(i as int)) is None,
        decreases delims@.len() - i,
    {
        assert(all.take(i + 1).drop_last() =~= all.take(i as int));
        assert(all.take(i + 1).last() == delims@[i as int]@);
        if let Some((left, right)) = split_once(line, delims[i]) {
            let name = trim(left.as_str());
            let ext = extension(name.as_str());
            let audio = match &ext {
                Some(e) => is_audio_file(Some(e.as_str())),
                None => is_audio_file(None),
            };
            if audio {
                let rest = trim(right.as_str());
                proof {
                    name_and_rest_is_kept(line@, all, i + 1);
                }
                return Some((name, rest));
            }
        }
        i += 1;
    }
    assert(all.take(all.len() as int) =~= all);
    None
}

/// A cut at one of the first delimiters stands, whatever delimiters follow.
proof fn name_and_rest_is_kept(line: Seq<char>, delims: Seq<Seq<char>>, n: int)
    requires
        0 <= n <= delims.len(),
        name_and_rest(line, delims.take(n)) is Some,
    ensures
        name_and_rest(line, delims) == name_and_rest(line, delims.take(n)),
    decreases delims.len(),
{
    if n == delims.len() {
        assert(delims.take(n) =~= delims);
    } else {
        assert(delims.drop_last().take(n) =~= delims.take(n));
        name_and_rest_is_kept(line, delims.drop_last(), n);
    }
}

/// Best-effort reading of plain text: one entry per line, splitting on the
/// first of " - ", ":", ",", or a tab once a known audio extension is spotted
/// in the leading token.
pub fn parse_txt(index: &mut SidecarIndex, content: &str, source: &str)
    ensures
        final(index)@ == with_text(old(index)@, content@, source@),
{
    let lines: Vec<String> = split(content, Separator::LineFeed);
    let ghost all = texts(lines@);
    let mut i: usize = 0;
    while i < lines.len()
        invariant
            all == texts(lines@),
            i <= lines@.len(),
            index@ == with_lines(old(index)@, all.take(i as int), source@),
        decreases lines@.len() - i,
    {
        assert(all.take(i + 1).drop_last() =~= all.take(i as int));
        assert(all.take(i + 1).last() == lines@[i as int]@);
        let line = trim(lines[i].as_str());
        if let Some((name, rest)) = split_line(line.as_str()) {
            let meta = SidecarMeta {
                description: Some(rest),
                tags: None,
                source: source.to_owned(),
            };
            insert_entry(index, name.as_str(), meta);
        }
        i += 1;
    }
    assert(all.take(all.len() as int) =~= all);
}

// ---------------------------------------------------------------------------
// Folders
// ---------------------------------------------------------------------------

/// `String::from_utf8`: the text that the bytes encode, or nothing when they
/// are not UTF-8.
#[verifier::external_body]
fn utf8_text(data: &Vec<u8>) -> (r: Option<String>)
    ensures
        match r {
            Some(t) => valid_utf8(data@) && t@ == decode_utf8(data@),
            None => !valid_utf8(data@),
        },
{
    String::from_utf8(data.clone()).ok()
}

/// What was read of a file.
#[derive(Debug)]
pub enum Contents {
    /// Nothing: the file is of no use here, or could not be read.
    Unread,
    /// Its bytes.
    Bytes(Vec<u8>),
    /// The cells of its first sheet, row by row.
    Sheet(Vec<Vec<Cell>>),
}

/// A file in a folder: its name and its extension, as far as they are text,
/// and what was read of it.
#[derive(Debug)]
pub struct SidecarFile {
    pub name: Option<String>,
    pub extension: Option<String>,
    pub contents: Contents,
}

/// The name under which a file is given as a source.
pub open spec fn source_name(file: SidecarFile) -> Seq<char> {
    match file.name {
        Some(n) => n@,
        None => Seq::empty(),
    }
}

/// `index` with what a file says, when it is a sidecar that could be read.
pub open spec fn with_file(
    index: Map<Seq<char>, MetaView>,
    file: SidecarFile,
) -> Map<Seq<char>, MetaView> {
    match (sidecar_format_of(opt_text(file.extension)), file.contents) {
        (Some(SidecarFormat::Csv), Contents::Bytes(data)) => with_csv(
            index,
            data@,
            source_name(file),
        ),
        (Some(SidecarFormat::Workbook), Contents::Sheet(sheet)) => with_sheet(
            index,
            sheet_view(sheet@),
            source_name(file),
        ),
        (Some(SidecarFormat::Text), Contents::Bytes(data)) => if valid_utf8(data@) {
            with_text(index, decode_utf8(data@), source_name(file))
        } else {
            index
        },
        _ => index,
    }
}

/// `index` with what each file says, in order.
pub open spec fn with_files(
    index: Map<Seq<char>, MetaView>,
    files: Seq<SidecarFile>,
) -> Map<Seq<char>, MetaView>
    decreases files.len(),
{
    if files.len() == 0 {
        index
    } else {
        with_file(with_files(index, files.drop_last()), files.last())
    }
}

/// Enters what a file says, when it is a sidecar that could be read.
pub fn index_file(index: &mut SidecarIndex, file: &SidecarFile)
    ensures
        final(index)@ == with_file(old(index)@, *file),
{
    let ext = match &file.extension {
        Some(e) => e.as_str(),
        None => return,
    };
    let source = match &file.name {
        Some(n) => n.as_str().to_owned(),
        None => String::new(),
    };
    match (sidecar_format(Some(ext)), &file.contents) {
        (Some(SidecarFormat::Csv), Contents::Bytes(data)) => {
            parse_csv(index, data, source.as_str())
        },
        (Some(SidecarFormat::Workbook), Contents::Sheet(sheet)) => {
            parse_xlsx(index, sheet, source.as_str())
        },
        (Some(SidecarFormat::Text), Contents::Bytes(data)) => {
            if let Some(content) = utf8_text(data) {
                parse_txt(index, content.as_str(), source.as_str());
            }
        },
        _ => {},
    }
}

/// What the sidecars of a folder say of the audio files in it. The files of the
/// folder are taken in the given order.
pub fn scan_folder_sidecars(files: &Vec<SidecarFile>) -> (r: SidecarIndex)
    ensures
        r@ == with_files(Map::empty(), files@),
{
    let mut index = SidecarIndex::new();
    let mut i: usize = 0;
    while i < files.len()
        invariant
            i <= files@.len(),
            index@ == with_files(Map::empty(), files@.take(i as int)),
        decreases files@.len() - i,
    {
        assert(files@.take(i + 1).drop_last() =~= files@.take(i as int));
        index_file(&mut index, &files[i]);
        i += 1;
    }
    assert(files@.take(files@.len() as int) =~= files@);
    index
}

// ---------------------------------------------------------------------------
// Laws
// ---------------------------------------------------------------------------

/// Whether every entry of `a` stands unchanged in `b`.
pub open spec fn keeps(a: Map<Seq<char>, MetaView>, b: Map<Seq<char>, MetaView>) -> bool {
    forall|k: Seq<char>| #[trigger] a.contains_key(k) ==> b.contains_key(k) && b[k] == a[k]
}

/// The first entry for a key stays: a later one never replaces it.
pub proof fn first_entry_stays(
    index: Map<Seq<char>, MetaView>,
    filename: Seq<char>,
    meta: MetaView,
)
    ensures
        keeps(index, with_entry(index, filename, meta)),
{
}

/// Rows only ever add to what was there.
pub proof fn rows_keep_entries(
    index: Map<Seq<char>, MetaView>,
    headers: Seq<Seq<char>>,
    rows: Seq<Seq<Seq<char>>>,
    source: Seq<char>,
)
    ensures
        keeps(index, with_rows(index, headers, rows, source)),
    decreases rows.len(),
{
    if rows.len() > 0 {
        rows_keep_entries(index, headers, rows.drop_last(), source);
        first_entry_stays(
            with_rows(index, headers, rows.drop_last(), source),
            row_filename(headers, rows.last()),
            row_meta(headers, rows.last(), source),
        );
    }
}

/// Lines only ever add to what was there.
pub proof fn lines_keep_entries(
    index: Map<Seq<char>, MetaView>,
    lines: Seq<Seq<char>>,
    source: Seq<char>,
)
    ensures
        keeps(index, with_lines(index, lines, source)),
    decreases lines.len(),
{
    if lines.len() > 0 {
        lines_keep_entries(index, lines.drop_last(), source);
        let before = with_lines(index, lines.drop_last(), source);
        if let Some((name, rest)) = name_and_rest(trimmed(lines.last()), delimiter_names()) {
            first_entry_stays(
                before,
                name,
                MetaView { description: Some(rest), tags: None, source },
            );
        }
    }
}

/// A sidecar only ever adds to what the sidecars before it said.
pub proof fn later_files_keep_entries(index: Map<Seq<char>, MetaView>, file: SidecarFile)
    ensures
        keeps(index, with_file(index, file)),
{
    let source = source_name(file);
    match file.contents {
        Contents::Bytes(data) => {
            if let Some(headers) = csv_header_fields(data@, true) {
                rows_keep_entries(index, headers, readable(csv_record_fields(data@, true)), source);
            }
            lines_keep_entries(index, pieces(decode_utf8(data@), Separator::LineFeed), source);
        },
        Contents::Sheet(sheet) => {
            let rows = sheet_as_texts(sheet_view(sheet@));
            rows_keep_entries(index, rows[0], rows.skip(1), source);
        },
        Contents::Unread => {},
    }
}

/// An entry for a name that is not blank can be found under the name in lower
/// case, and under that name without its extension.
pub proof fn entry_has_both_keys(
    index: Map<Seq<char>, MetaView>,
    filename: Seq<char>,
    meta: MetaView,
)
    requires
        trimmed(filename).len() > 0,
    ensures
        with_entry(index, filename, meta).contains_key(lowercase(trimmed(filename))),
        with_entry(index, filename, meta).contains_key(
            stem_key(lowercase(trimmed(filename))),
        ),
{
}

/// A file that a sidecar lists by its full name is described by that entry,
/// unless something was said of it before.
pub proof fn listed_file_is_described(
    index: Map<Seq<char>, MetaView>,
    filename: Seq<char>,
    stem: Seq<char>,
    meta: MetaView,
)
    requires
        filename.len() > 0,
        trimmed(filename) == filename,
        !index.contains_key(lowercase(filename)),
    ensures
        described(with_entry(index, filename, meta), filename, stem) == Some(meta),
{
}

/// A file whose full name no sidecar lists is described by the entry for a name
/// that has the file's stem, unless something was said of that stem before.
pub proof fn listed_stem_describes_file(
    index: Map<Seq<char>, MetaView>,
    filename: Seq<char>,
    stem: Seq<char>,
    listed: Seq<char>,
    meta: MetaView,
)
    requires
        trimmed(listed).len() > 0,
        stem_key(lowercase(trimmed(listed))) == lowercase(stem),
        !index.contains_key(lowercase(stem)),
        !with_entry(index, listed, meta).contains_key(lowercase(filename)),
    ensures
        described(with_entry(index, listed, meta), filename, stem) == Some(meta),
{
}

} // verus!
