//! Laws on what the side panels count.

use vstd::prelude::*;

use crate::facets::{
    all_labels, at_least, count_names, folder_count, is_count_of, occurrences, NamedCount,
};
use crate::ieee::less_double;
use crate::tags::{nonempty, piece_without_separator, pieces_of_two, unpacked};
use crate::text::{pieces, Separator};

verus! {

/// A name occurs as often as there are labels that are it.
pub proof fn occurrences_are_counted_one_by_one(labels: Seq<Seq<char>>, name: Seq<char>)
    ensures
        occurrences(labels, name) == labels.filter(|l: Seq<char>| l == name).len(),
    decreases labels.len(),
{
    reveal(Seq::filter);
    if labels.len() > 0 {
        occurrences_are_counted_one_by_one(labels.drop_last(), name);
    }
}

/// What is not empty in two lists is what is not empty in the one and in the
/// other.
proof fn nonempty_of_two(a: Seq<Seq<char>>, b: Seq<Seq<char>>)
    ensures
        nonempty(a + b) == nonempty(a) + nonempty(b),
    decreases b.len(),
{
    if b.len() == 0 {
        assert(a + b =~= a);
        assert(nonempty(a) + nonempty(b) =~= nonempty(a));
    } else {
        nonempty_of_two(a, b.drop_last());
        assert((a + b).drop_last() =~= a + b.drop_last());
        assert((a + b).last() == b.last());
        assert(nonempty(a + b) =~= nonempty(a) + nonempty(b));
    }
}

/// Commas part the labels of a packed text, and what stands between commas is a
/// label unless it is empty.
pub proof fn commas_part_the_labels(a: Seq<char>, b: Seq<char>)
    ensures
        unpacked(a.push(',') + b) == unpacked(a) + unpacked(b),
        !a.contains(',') ==> unpacked(a) == if a.len() > 0 {
            seq![a]
        } else {
            Seq::empty()
        },
{
    pieces_of_two(a, ',', b, Separator::Comma);
    nonempty_of_two(pieces(a, Separator::Comma), pieces(b, Separator::Comma));
    if !a.contains(',') {
        assert forall|i: int| 0 <= i < a.len() implies !Separator::Comma.accepts(#[trigger] a[i]) by {
            if a[i] == ',' {
                assert(a.contains(','));
            }
        }
        piece_without_separator(a, Separator::Comma);
        assert(seq![a].drop_last() =~= Seq::empty());
        assert(nonempty(seq![a].drop_last()) =~= Seq::empty());
        assert(unpacked(a) =~= if a.len() > 0 {
            seq![a]
        } else {
            Seq::empty()
        });
    }
}

/// The labels of two groups of files are those of the one and those of the
/// other, and the labels of one file are those in its packed text.
pub proof fn every_file_is_counted(a: Seq<Seq<char>>, b: Seq<Seq<char>>)
    ensures
        all_labels(a + b) == all_labels(a) + all_labels(b),
        a.len() == 0 ==> all_labels(a).len() == 0,
        a.len() == 1 ==> all_labels(a) == unpacked(a[0]),
    decreases b.len(),
{
    if a.len() == 1 {
        assert(all_labels(a.drop_last()) =~= Seq::empty());
        assert(all_labels(a) =~= unpacked(a[0]));
    }
    if b.len() == 0 {
        assert(a + b =~= a);
        assert(all_labels(a) + all_labels(b) =~= all_labels(a));
    } else {
        every_file_is_counted(a, b.drop_last());
        assert((a + b).drop_last() =~= a + b.drop_last());
        assert((a + b).last() == b.last());
        assert(all_labels(a + b) =~= all_labels(a) + all_labels(b));
    }
}

/// A list of counts has every label once, with the number of times it was given.
pub proof fn counts_are_those_of_the_labels(
    counts: Seq<NamedCount>,
    labels: Seq<Seq<char>>,
    name: Seq<char>,
)
    requires
        is_count_of(counts, labels),
    ensures
        labels.contains(name) <==> exists|i: int|
            0 <= i < counts.len() && (#[trigger] counts[i]).name@ == name,
        forall|i: int|
            0 <= i < counts.len() && (#[trigger] counts[i]).name@ == name ==> counts[i].count
                == labels.filter(|l: Seq<char>| l == name).len(),
{
    occurrences_are_counted_one_by_one(labels, name);
    occurs_when_given(labels, name);
    let names = count_names(counts);
    if names.contains(name) {
        let k = names.index_of(name);
        assert(counts[k].name@ == name);
    }
    assert forall|i: int| 0 <= i < counts.len() && (#[trigger] counts[i]).name@ == name implies
        names.contains(name) by {
        assert(names[i] == name);
    }
}

/// A label occurs exactly when it was given.
proof fn occurs_when_given(labels: Seq<Seq<char>>, name: Seq<char>)
    ensures
        occurrences(labels, name) > 0 <==> labels.contains(name),
    decreases labels.len(),
{
    if labels.len() > 0 {
        let rest = labels.drop_last();
        occurs_when_given(rest, name);
        if rest.contains(name) {
            let k = rest.index_of(name);
            assert(labels[k] == name);
        }
        if labels.contains(name) && labels.last() != name {
            let k = labels.index_of(name);
            assert(rest[k] == name);
        }
        assert(labels[labels.len() - 1] == labels.last());
    }
}

/// The count of a folder is that of the last row about it, and zero when there
/// is none.
pub proof fn folder_counts_are_those_of_the_rows(
    rows: Seq<(String, String, i64)>,
    root: Seq<char>,
    folder: Seq<char>,
    k: int,
)
    requires
        -1 <= k < rows.len(),
        k >= 0 ==> rows[k].0@ == root && rows[k].1@ == folder,
        forall|j: int|
            k < j < rows.len() ==> !((#[trigger] rows[j]).0@ == root && rows[j].1@ == folder),
    ensures
        folder_count(rows, root, folder) == if k >= 0 {
            rows[k].2
        } else {
            0
        },
    decreases rows.len(),
{
    if rows.len() > 0 && k < rows.len() - 1 {
        let rest = rows.drop_last();
        assert(!(rows[rows.len() - 1].0@ == root && rows[rows.len() - 1].1@ == folder));
        assert forall|j: int| k < j < rest.len() implies !((#[trigger] rest[j]).0@ == root
            && rest[j].1@ == folder) by {
            assert(rest[j] == rows[j]);
        }
        folder_counts_are_those_of_the_rows(rest, root, folder, k);
    }
}

/// A bound of the duration filter is what is known, or the default, as long as
/// that is above the floor, and the floor otherwise.
pub proof fn bounds_are_what_is_known(known: u64, default: u64, floor: u64)
    ensures
        less_double(floor, known) ==> at_least(Some(known), default, floor) == known,
        !less_double(floor, known) ==> at_least(Some(known), default, floor) == floor,
        less_double(floor, default) ==> at_least(None, default, floor) == default,
        !less_double(floor, default) ==> at_least(None, default, floor) == floor,
{
}

} // verus!
