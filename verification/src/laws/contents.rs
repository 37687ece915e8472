//! Laws on what the values of the library's types stand for: nothing that a
//! value holds is left out of its contents.

use vstd::prelude::*;

use crate::roots::RootInfo;
use crate::sidecar::{record_texts, sheet_view, Cell, CellView, SidecarMeta};
use crate::tags::strictly_ordered;
use crate::text::{opt_str, opt_text, precedes, str_texts, texts};

verus! {

/// The contents of optional strings and of lists of strings are those of the
/// strings in them.
pub proof fn strings_are_their_contents(s: String, t: &'static str, v: Seq<&'static str>)
    ensures
        opt_text(Some(s)) == Some(s@),
        opt_text(None) is None,
        opt_str(Some(t)) == Some(t@),
        opt_str(None) is None,
        str_texts(v).len() == v.len(),
        forall|i: int| 0 <= i < v.len() ==> #[trigger] str_texts(v)[i] == v[i]@,
{
}

/// What a sidecar says of a file is its description, its tags and its source.
pub proof fn metadata_is_all_that_was_said(m: SidecarMeta)
    ensures
        m@.description == opt_text(m.description),
        m@.tags == opt_text(m.tags),
        m@.source == m.source@,
{
}

/// A cell stands for what it holds.
pub proof fn cells_stand_for_what_they_hold(t: String, i: i64, b: bool)
    ensures
        Cell::Text(t)@ == CellView::Text(t@),
        Cell::Number(t)@ == CellView::Number(t@),
        Cell::Integer(i)@ == CellView::Integer(i),
        Cell::Flag(b)@ == CellView::Flag(b),
        Cell::Other@ == CellView::Other,
{
}

/// A sheet has all the cells of all its rows, in order.
pub proof fn sheets_have_all_their_cells(rows: Seq<Vec<Cell>>)
    ensures
        sheet_view(rows).len() == rows.len(),
        forall|i: int|
            0 <= i < rows.len() ==> (#[trigger] sheet_view(rows)[i]).len() == rows[i]@.len(),
        forall|i: int, j: int|
            0 <= i < rows.len() && 0 <= j < rows[i]@.len() ==> #[trigger] sheet_view(rows)[i][j]
                == rows[i]@[j]@,
{
}

/// A record has all its fields, in order, when it could be read.
pub proof fn records_have_all_their_fields(records: Seq<Option<Vec<String>>>)
    ensures
        record_texts(records).len() == records.len(),
        forall|i: int|
            0 <= i < records.len() ==> (#[trigger] record_texts(records)[i] is Some <==> records[i]
                is Some),
        forall|i: int|
            0 <= i < records.len() && records[i] is Some ==> #[trigger] record_texts(records)[i]
                == Some(texts((records[i]->0)@)),
{
}

/// A root stands for its path, its label, its status, its last scan and its
/// number of files.
pub proof fn roots_stand_for_what_they_hold(r: RootInfo)
    ensures
        r@.root_path == r.root_path@,
        r@.label == opt_text(r.label),
        r@.status == r.status@,
        r@.last_scanned_at == r.last_scanned_at,
        r@.total_files == r.total_files,
{
}

/// In an ordered list every text comes before all that stand behind it.
pub proof fn ordered_lists_are_in_order(list: Seq<Seq<char>>)
    ensures
        strictly_ordered(list) <==> forall|i: int, j: int|
            0 <= i < j < list.len() ==> precedes(#[trigger] list[i], #[trigger] list[j]),
{
}

} // verus!
