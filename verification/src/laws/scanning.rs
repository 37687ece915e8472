//! Laws on scans and on what they write down.

use vstd::prelude::*;

use crate::indexer::{
    is_record_of, is_unchanged, number_in, state_in, stored_state, unseen, FileRecord, FileState,
    FoundFile, Probed, Scan, StoredFile,
};
use crate::numbers::parsed_i64;
use crate::roots::fresh_root;
use crate::sidecar::MetaView;
use crate::tags::{listed_tags, name_tags, packed, strictly_ordered};
use crate::text::{joined, lowercase, opt_text};

verus! {

/// A file is up to date exactly when it is known, its time and its size are
/// those that are known, and the analysis that saw it was the third or a later
/// one.
pub proof fn up_to_date_means_nothing_changed(
    known: FileState,
    mtime: Option<i64>,
    filesize: Option<i64>,
)
    ensures
        is_unchanged(Some(known), mtime, filesize) <==> known.mtime == mtime && known.filesize
            == filesize && known.analyzed_version >= 3,
        !is_unchanged(None, mtime, filesize),
{
}

/// What is known of a path is what the last row about it says.
pub proof fn last_row_about_a_path_counts(rows: Seq<StoredFile>, path: Seq<char>, k: int)
    requires
        -1 <= k < rows.len(),
        k >= 0 ==> rows[k].path@ == path,
        forall|j: int| k < j < rows.len() ==> (#[trigger] rows[j]).path@ != path,
    ensures
        stored_state(rows, path) == if k >= 0 {
            Some(rows[k].state)
        } else {
            None
        },
    decreases rows.len(),
{
    if rows.len() > 0 && k < rows.len() - 1 {
        let rest = rows.drop_last();
        assert(rows[rows.len() - 1].path@ != path);
        assert forall|j: int| k < j < rest.len() implies (#[trigger] rest[j]).path@ != path by {
            assert(rest[j] == rows[j]);
        }
        last_row_about_a_path_counts(rest, path, k);
    }
}

/// A scan stays the same scan when its root, what the index held of each file,
/// and the number of files stay the same.
pub proof fn scans_keep_what_they_began_with(a: Scan, b: Scan)
    ensures
        a.same_scan(&b) <==> a.root_path() == b.root_path() && a.known_files() == b.known_files()
            && a.total_files() == b.total_files(),
{
}

/// What an index says of a path is what stands under it.
pub proof fn index_says_what_stands_under_a_path(
    index: Map<Seq<char>, FileState>,
    path: Seq<char>,
)
    ensures
        index.contains_key(path) ==> state_in(index, path) == Some(index[path]),
        !index.contains_key(path) ==> state_in(index, path) is None,
{
}

/// A number of the probe is the number that its text stands for.
pub proof fn probe_numbers_are_read(text: Seq<char>)
    ensures
        number_in(Some(text)) == parsed_i64(text),
        number_in(None) is None,
{
}

/// Each listed path is dropped or kept by itself, in order.
pub proof fn paths_are_dropped_one_by_one(
    a: Seq<Seq<char>>,
    b: Seq<Seq<char>>,
    seen: Set<Seq<char>>,
)
    ensures
        unseen(a + b, seen) == unseen(a, seen) + unseen(b, seen),
        a.len() == 1 ==> unseen(a, seen) == if seen.contains(a[0]) {
            Seq::empty()
        } else {
            a
        },
    decreases b.len(),
{
    if a.len() == 1 {
        assert(unseen(a.drop_last(), seen) =~= Seq::empty());
        assert(unseen(a, seen) =~= if seen.contains(a[0]) {
            Seq::empty()
        } else {
            a
        });
    }
    if b.len() == 0 {
        assert(a + b =~= a);
        assert(unseen(a, seen) + unseen(b, seen) =~= unseen(a, seen));
    } else {
        paths_are_dropped_one_by_one(a, b.drop_last(), seen);
        assert((a + b).drop_last() =~= a + b.drop_last());
        assert((a + b).last() == b.last());
        assert(unseen(a + b, seen) =~= unseen(a, seen) + unseen(b, seen));
    }
}

/// What a sidecar says of a file: what stands under its name in lower case, or
/// else under its stem.
pub open spec fn said_of(
    index: Map<Seq<char>, MetaView>,
    name: Seq<char>,
    stem: Seq<char>,
) -> Option<MetaView> {
    if index.contains_key(lowercase(name)) {
        Some(index[lowercase(name)])
    } else if index.contains_key(lowercase(stem)) {
        Some(index[lowercase(stem)])
    } else {
        None
    }
}

/// A text, or nothing when it is not known.
pub open spec fn text_or_nothing(t: Option<String>) -> Seq<char> {
    if t is Some {
        (t->0)@
    } else {
        Seq::empty()
    }
}

/// A record keeps everything that is known of a file: where it lies, what the
/// file system, the probe and the sidecar say of it, its tags, each once and in
/// order, and its labels.
pub proof fn records_keep_what_is_known<S>(
    r: FileRecord<S>,
    root: Seq<char>,
    file: FoundFile,
    index: Map<Seq<char>, MetaView>,
    probed: Probed<S>,
    labels: Seq<Seq<char>>,
)
    requires
        is_record_of(r, root, file, index, probed, labels),
    ensures
        r.path@ == file.path@,
        r.root_path@ == root,
        r.filename@ == text_or_nothing(file.filename),
        r.ext@ == lowercase(text_or_nothing(file.extension)),
        r.parent_folder@ == text_or_nothing(file.parent_folder),
        r.folder_path@ == file.folder_path@,
        r.duration_secs == probed.duration_secs,
        r.samplerate == probed.samplerate,
        r.channels == probed.channels,
        r.bitrate == probed.bitrate,
        r.filesize == file.filesize,
        r.mtime == file.mtime,
        r.analyzed_version == 3,
        opt_text(r.dsp_tags) == packed(labels),
        match said_of(index, text_or_nothing(file.filename), text_or_nothing(file.stem)) {
            Some(said) => opt_text(r.description) == said.description && opt_text(r.sidecar_source)
                == Some(said.source),
            None => r.description is None && r.sidecar_source is None,
        },
        exists|tags: Seq<Seq<char>>|
            {
                &&& strictly_ordered(tags)
                &&& r.tags@ == #[trigger] joined(tags, seq![','])
                &&& forall|t: Seq<char>| #[trigger]
                    tags.contains(t) <==> name_tags(text_or_nothing(file.stem)).contains(t)
                        || listed_tags(
                        match said_of(
                            index,
                            text_or_nothing(file.filename),
                            text_or_nothing(file.stem),
                        ) {
                            Some(said) => said.tags,
                            None => None,
                        },
                    ).contains(t)
            },
{
}

/// A root that was never scanned is labelled by its path and has no files yet.
pub proof fn fresh_roots_know_their_path_only(path: Seq<char>, status: Seq<char>)
    ensures
        fresh_root(path, status).root_path == path,
        fresh_root(path, status).label == Some(path),
        fresh_root(path, status).status == status,
        fresh_root(path, status).last_scanned_at is None,
        fresh_root(path, status).total_files == 0,
{
}

} // verus!
