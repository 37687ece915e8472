//! Laws on sidecars: what each line, row and file of them adds.

use vstd::prelude::*;
use vstd::utf8::{decode_utf8, valid_utf8};

use crate::formats::is_audio_extension;
use crate::laws::naming::sidecars_have_these_extensions;
use crate::laws::scanning::said_of;
use crate::laws::texts::cutting_loses_only_the_pattern;
use crate::numbers::{written_integer, written_reads_back};
use crate::paths::{extension_of, file_stem_of};
use crate::sidecar::{
    cell_text, csv_header_fields, csv_record_fields, delimiter_names, described,
    description_header_names, filename_header_names, header_position, header_position_is_first,
    is_header, name_and_rest, readable, row_filename, row_meta, sheet_view, tags_header_names,
    with_csv, with_entry, with_file, with_files, with_line, with_lines, with_rows, with_sheet,
    with_text, CellView, Contents, MetaView, SidecarFile,
};
use crate::tags::{piece_without_separator, pieces_of_two};
use crate::text::{cut_at_first, lowercase, occurs_at, pieces, trimmed, Separator};

verus! {

// ---------------------------------------------------------------------------
// Entries
// ---------------------------------------------------------------------------

/// Whether `after` is `before` with an entry for the name: under the name in
/// lower case and under that without its extension, where nothing stood before,
/// and nowhere else. A blank name adds nothing, and what stood before stays.
pub open spec fn gains(
    before: Map<Seq<char>, MetaView>,
    after: Map<Seq<char>, MetaView>,
    name: Seq<char>,
    meta: MetaView,
) -> bool {
    let lower = lowercase(trimmed(name));
    let stem = match file_stem_of(lower) {
        Some(s) => s,
        None => lower,
    };
    &&& forall|k: Seq<char>| #[trigger]
        after.contains_key(k) <==> before.contains_key(k) || (trimmed(name).len() > 0 && (k == lower
            || k == stem))
    &&& forall|k: Seq<char>| #[trigger]
        after.contains_key(k) ==> after[k] == if before.contains_key(k) {
            before[k]
        } else {
            meta
        }
}

/// An entry adds the file under its two keys, and nothing else.
pub proof fn entries_add_their_file_only(
    index: Map<Seq<char>, MetaView>,
    name: Seq<char>,
    meta: MetaView,
)
    ensures
        gains(index, with_entry(index, name, meta), name, meta),
{
}

/// A lookup finds what stands under the name, or else under the stem.
pub proof fn lookups_try_the_name_and_then_the_stem(
    index: Map<Seq<char>, MetaView>,
    name: Seq<char>,
    stem: Seq<char>,
)
    ensures
        described(index, name, stem) == said_of(index, name, stem),
{
}

// ---------------------------------------------------------------------------
// Lines
// ---------------------------------------------------------------------------

/// Whether the pattern stands at `i` in the line, and nowhere before.
pub open spec fn first_stands_at(line: Seq<char>, pat: Seq<char>, i: int) -> bool {
    occurs_at(line, pat, i) && forall|j: int| 0 <= j < i ==> !occurs_at(line, pat, j)
}

/// Whether the delimiter cuts the name of an audio file off the line.
pub open spec fn cuts_off_a_name(line: Seq<char>, delim: Seq<char>) -> bool {
    exists|i: int| #[trigger]
        first_stands_at(line, delim, i) && is_audio_extension(extension_of(trimmed(line.take(i))))
}

/// A delimiter that cuts a name off is one at whose first occurrence the line is
/// cut.
proof fn cut_is_at_the_first(line: Seq<char>, delim: Seq<char>)
    ensures
        match cut_at_first(line, delim) {
            Some((left, right)) => first_stands_at(line, delim, left.len() as int) && line.take(
                left.len() as int,
            ) == left && (cuts_off_a_name(line, delim) <==> is_audio_extension(
                extension_of(trimmed(left)),
            )),
            None => !cuts_off_a_name(line, delim),
        },
{
    cutting_loses_only_the_pattern(line, delim);
    match cut_at_first(line, delim) {
        Some((left, right)) => {
            let n = left.len() as int;
            assert(line.subrange(n, n + delim.len()) =~= delim);
            assert(line.take(n) =~= left);
            assert(first_stands_at(line, delim, n));
            if cuts_off_a_name(line, delim) {
                let i = choose|i: int| #[trigger]
                    first_stands_at(line, delim, i) && is_audio_extension(
                        extension_of(trimmed(line.take(i))),
                    );
                assert(i == n);
            }
        },
        None => {},
    }
}

/// A line is cut at a delimiter that has the name of an audio file before it,
/// the earliest in the list that has. Nothing of the line is lost but the
/// delimiter and white space: what stands before the first occurrence of the
/// delimiter is the name, and all that stands behind it the description. A line
/// that is not cut has no such delimiter.
pub proof fn lines_are_cut_without_loss(line: Seq<char>, delims: Seq<Seq<char>>)
    ensures
        match name_and_rest(line, delims) {
            Some((name, rest)) => exists|k: int, left: Seq<char>, right: Seq<char>|
                {
                    &&& 0 <= k < delims.len()
                    &&& line == #[trigger] (left + delims[k] + right)
                    &&& first_stands_at(line, delims[k], left.len() as int)
                    &&& name == trimmed(left)
                    &&& rest == trimmed(right)
                    &&& is_audio_extension(extension_of(name))
                    &&& forall|m: int| 0 <= m < k ==> !cuts_off_a_name(line, #[trigger] delims[m])
                },
            None => forall|m: int|
                0 <= m < delims.len() ==> !cuts_off_a_name(line, #[trigger] delims[m]),
        },
    decreases delims.len(),
{
    if delims.len() > 0 {
        let rest = delims.drop_last();
        let last = delims.last();
        lines_are_cut_without_loss(line, rest);
        cut_is_at_the_first(line, last);
        cutting_loses_only_the_pattern(line, last);
        match name_and_rest(line, rest) {
            Some((n, r)) => {
                let (k, left, right) = choose|k: int, left: Seq<char>, right: Seq<char>|
                    {
                        &&& 0 <= k < rest.len()
                        &&& line == #[trigger] (left + rest[k] + right)
                        &&& first_stands_at(line, rest[k], left.len() as int)
                        &&& n == trimmed(left)
                        &&& r == trimmed(right)
                        &&& is_audio_extension(extension_of(n))
                        &&& forall|m: int| 0 <= m < k ==> !cuts_off_a_name(line, #[trigger] rest[m])
                    };
                assert(rest[k] == delims[k]);
                assert(line == left + delims[k] + right);
                assert forall|m: int| 0 <= m < k implies !cuts_off_a_name(
                    line,
                    #[trigger] delims[m],
                ) by {
                    assert(rest[m] == delims[m]);
                }
            },
            None => {
                assert forall|m: int| 0 <= m < rest.len() implies !cuts_off_a_name(
                    line,
                    #[trigger] delims[m],
                ) by {
                    assert(rest[m] == delims[m]);
                }
                let k = delims.len() - 1;
                assert(delims[k] == last);
                if let Some((left, right)) = cut_at_first(line, last) {
                    assert(line == left + delims[k] + right);
                }
            },
        }
    }
}

/// A line that is cut adds an entry for the name with the rest as its
/// description, without tags; any other line adds nothing.
pub proof fn lines_add_what_they_say(
    index: Map<Seq<char>, MetaView>,
    line: Seq<char>,
    source: Seq<char>,
)
    ensures
        match name_and_rest(trimmed(line), delimiter_names()) {
            Some((name, rest)) => gains(
                index,
                with_line(index, line, source),
                name,
                MetaView { description: Some(rest), tags: None, source },
            ),
            None => with_line(index, line, source) == index,
        },
{
}

/// Lines behind others are added to what these said.
proof fn lines_of_two(
    index: Map<Seq<char>, MetaView>,
    a: Seq<Seq<char>>,
    b: Seq<Seq<char>>,
    source: Seq<char>,
)
    ensures
        with_lines(index, a + b, source) == with_lines(with_lines(index, a, source), b, source),
    decreases b.len(),
{
    if b.len() == 0 {
        assert(a + b =~= a);
    } else {
        lines_of_two(index, a, b.drop_last(), source);
        assert((a + b).drop_last() =~= a + b.drop_last());
        assert((a + b).last() == b.last());
    }
}

/// A text is read line by line: what stands before a line feed is read first,
/// then what stands behind it, and what has none is one line.
pub proof fn texts_are_read_line_by_line(
    index: Map<Seq<char>, MetaView>,
    a: Seq<char>,
    b: Seq<char>,
    source: Seq<char>,
)
    ensures
        with_text(index, a.push('\n') + b, source) == with_text(
            with_text(index, a, source),
            b,
            source,
        ),
        !a.contains('\n') ==> with_text(index, a, source) == with_line(index, a, source),
{
    let sep = Separator::LineFeed;
    pieces_of_two(a, '\n', b, sep);
    lines_of_two(index, pieces(a, sep), pieces(b, sep), source);
    if !a.contains('\n') {
        assert forall|i: int| 0 <= i < a.len() implies !sep.accepts(#[trigger] a[i]) by {
            if a[i] == '\n' {
                assert(a.contains('\n'));
            }
        }
        piece_without_separator(a, sep);
        assert(seq![a].drop_last() =~= Seq::empty());
        assert(with_lines(index, seq![a].drop_last(), source) == index);
    }
}

// ---------------------------------------------------------------------------
// Tables
// ---------------------------------------------------------------------------

/// Whether `c` is the first column whose header, trimmed and in lower case, is
/// one of the names.
pub open spec fn is_column(headers: Seq<Seq<char>>, names: Seq<Seq<char>>, c: int) -> bool {
    &&& 0 <= c < headers.len()
    &&& names.contains(lowercase(trimmed(headers[c])))
    &&& forall|j: int| 0 <= j < c ==> !names.contains(lowercase(trimmed(#[trigger] headers[j])))
}

/// Whether no column has one of the names.
pub open spec fn has_no_column(headers: Seq<Seq<char>>, names: Seq<Seq<char>>) -> bool {
    forall|j: int|
        0 <= j < headers.len() ==> !names.contains(lowercase(trimmed(#[trigger] headers[j])))
}

/// The position that is found is that of such a column.
proof fn position_is_the_column(headers: Seq<Seq<char>>, names: Seq<Seq<char>>, c: int)
    ensures
        is_column(headers, names, c) ==> header_position(headers, names) == Some(c),
        has_no_column(headers, names) ==> header_position(headers, names) is None,
{
    header_position_is_first(headers, names);
    if is_column(headers, names, c) {
        assert(is_header(headers[c], names));
        if let Some(i) = header_position(headers, names) {
            if i < c {
                assert(!names.contains(lowercase(trimmed(headers[i]))));
            }
        }
    }
}

/// A row is about the file in its file name column, or in its first one when no
/// header names a column. Its description and its tags are what stands in the
/// columns for these, as far as the row goes.
pub proof fn rows_are_read_by_their_headers(
    headers: Seq<Seq<char>>,
    row: Seq<Seq<char>>,
    source: Seq<char>,
    c: int,
)
    ensures
        is_column(headers, filename_header_names(), c) ==> row_filename(headers, row) == if c
            < row.len() {
            row[c]
        } else {
            Seq::empty()
        },
        has_no_column(headers, filename_header_names()) ==> row_filename(headers, row) == if 0
            < row.len() {
            row[0]
        } else {
            Seq::empty()
        },
        is_column(headers, description_header_names(), c) ==> row_meta(
            headers,
            row,
            source,
        ).description == if c < row.len() {
            Some(row[c])
        } else {
            None
        },
        has_no_column(headers, description_header_names()) ==> row_meta(
            headers,
            row,
            source,
        ).description is None,
        is_column(headers, tags_header_names(), c) ==> row_meta(headers, row, source).tags == if c
            < row.len() {
            Some(row[c])
        } else {
            None
        },
        has_no_column(headers, tags_header_names()) ==> row_meta(headers, row, source).tags is None,
        row_meta(headers, row, source).source == source,
{
    position_is_the_column(headers, filename_header_names(), c);
    position_is_the_column(headers, description_header_names(), c);
    position_is_the_column(headers, tags_header_names(), c);
}

/// Each row adds the file it is about to what the rows before it said.
pub proof fn rows_add_what_they_say(
    index: Map<Seq<char>, MetaView>,
    headers: Seq<Seq<char>>,
    rows: Seq<Seq<Seq<char>>>,
    row: Seq<Seq<char>>,
    source: Seq<char>,
)
    ensures
        with_rows(index, headers, Seq::empty(), source) == index,
        gains(
            with_rows(index, headers, rows, source),
            with_rows(index, headers, rows.push(row), source),
            row_filename(headers, row),
            row_meta(headers, row, source),
        ),
{
    assert(rows.push(row).drop_last() =~= rows);
}

/// Records that can be read are read in order, and the others left out.
pub proof fn readable_records_are_read(
    records: Seq<Option<Seq<Seq<char>>>>,
    fields: Seq<Seq<char>>,
)
    ensures
        readable(Seq::empty()).len() == 0,
        readable(records.push(Some(fields))) == readable(records).push(fields),
        readable(records.push(None)) == readable(records),
{
    assert(records.push(Some(fields)).drop_last() =~= records);
    assert(records.push(None::<Seq<Seq<char>>>).drop_last() =~= records);
}

/// A table of comma-separated values is read record by record, whatever their
/// lengths, behind its headers; without headers it says nothing.
pub proof fn tables_are_read_behind_their_headers(
    index: Map<Seq<char>, MetaView>,
    data: Seq<u8>,
    source: Seq<char>,
)
    ensures
        csv_header_fields(data, true) is None ==> with_csv(index, data, source) == index,
        csv_header_fields(data, true) is Some ==> with_csv(index, data, source) == with_rows(
            index,
            csv_header_fields(data, true)->0,
            readable(csv_record_fields(data, true)),
            source,
        ),
{
}

/// A text cell is its text, a number is written out and reads back, a truth
/// value is `true` or `false`, and anything else is empty.
pub proof fn cells_are_their_contents(t: Seq<char>, i: i64)
    ensures
        cell_text(CellView::Text(t)) == t,
        cell_text(CellView::Number(t)) == t,
        written_integer(cell_text(CellView::Integer(i))) == Some(i as int),
        cell_text(CellView::Flag(true)) == "true"@,
        cell_text(CellView::Flag(false)) == "false"@,
        cell_text(CellView::Other).len() == 0,
{
    written_reads_back(i as int);
}

/// A sheet is a table: the texts of its first row are the headers, and each row
/// behind it is a row of the table.
pub proof fn sheets_are_tables(
    index: Map<Seq<char>, MetaView>,
    sheet: Seq<Seq<CellView>>,
    source: Seq<char>,
)
    ensures
        sheet.len() == 0 ==> with_sheet(index, sheet, source) == index,
        sheet.len() > 0 ==> with_sheet(index, sheet, source) == with_rows(
            index,
            Seq::new(sheet[0].len(), |j: int| cell_text(sheet[0][j])),
            Seq::new(
                (sheet.len() - 1) as nat,
                |i: int| Seq::new(sheet[i + 1].len(), |j: int| cell_text(sheet[i + 1][j])),
            ),
            source,
        ),
{
    if sheet.len() > 0 {
        let rows = crate::sidecar::sheet_as_texts(sheet);
        assert(rows[0] =~= Seq::new(sheet[0].len(), |j: int| cell_text(sheet[0][j])));
        let behind = Seq::new(
            (sheet.len() - 1) as nat,
            |i: int| Seq::new(sheet[i + 1].len(), |j: int| cell_text(sheet[i + 1][j])),
        );
        assert forall|i: int| 0 <= i < behind.len() implies rows.skip(1)[i] == behind[i] by {
            assert(rows.skip(1)[i] =~= behind[i]);
        }
        assert(rows.skip(1) =~= behind);
    }
}

// ---------------------------------------------------------------------------
// Files
// ---------------------------------------------------------------------------

/// The name of a file, or nothing.
pub open spec fn name_of(file: SidecarFile) -> Seq<char> {
    if file.name is Some {
        (file.name->0)@
    } else {
        Seq::empty()
    }
}

/// A file is read by its extension, in whatever case: as a table, a workbook or
/// a text, with its own name as the source. Anything else says nothing.
pub proof fn files_are_read_by_their_extension(
    index: Map<Seq<char>, MetaView>,
    file: SidecarFile,
    data: Vec<u8>,
    sheet: Vec<Vec<crate::sidecar::Cell>>,
)
    ensures
        file.extension is None ==> with_file(index, file) == index,
        file.contents is Unread ==> with_file(index, file) == index,
        file.extension is Some && lowercase((file.extension->0)@) == "csv"@ && file.contents
            == Contents::Bytes(data) ==> with_file(index, file) == with_csv(
            index,
            data@,
            name_of(file),
        ),
        file.extension is Some && (lowercase((file.extension->0)@) == "xlsx"@ || lowercase(
            (file.extension->0)@,
        ) == "xls"@ || lowercase((file.extension->0)@) == "xlsm"@) && file.contents
            == Contents::Sheet(sheet) ==> with_file(index, file) == with_sheet(
            index,
            sheet_view(sheet@),
            name_of(file),
        ),
        file.extension is Some && lowercase((file.extension->0)@) == "txt"@ && file.contents
            == Contents::Bytes(data) && valid_utf8(data@) ==> with_file(index, file) == with_text(
            index,
            decode_utf8(data@),
            name_of(file),
        ),
        file.extension is Some && lowercase((file.extension->0)@) == "txt"@ && file.contents
            == Contents::Bytes(data) && !valid_utf8(data@) ==> with_file(index, file) == index,
{
    if file.extension is Some {
        sidecars_have_these_extensions((file.extension->0)@);
    }
}

/// The files of a folder are read one after the other, each adding to what those
/// before it said.
pub proof fn files_are_read_one_by_one(
    index: Map<Seq<char>, MetaView>,
    files: Seq<SidecarFile>,
    file: SidecarFile,
)
    ensures
        with_files(index, Seq::empty()) == index,
        with_files(index, files.push(file)) == with_file(with_files(index, files), file),
{
    assert(files.push(file).drop_last() =~= files);
}

} // verus!
