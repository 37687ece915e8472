//! Scanning a root: which files are looked at again, what is written down of
//! each, when progress is reported, and which entries are dropped at the end.

use vstd::hash_map::StringHashMap;
use vstd::hash_set::StringHashSet;
use vstd::prelude::*;

use crate::numbers::{parse_i64, parsed_i64};
use crate::sidecar::{described, MetaView, SidecarIndex};
use crate::tags::{
    file_tags, listed_tags, name_tags, ordered_list_is_unique, pack_labels, packed,
    strictly_ordered,
};
use crate::text::{copy_opt, join, joined, lowercase, opt_text, str_texts, texts};

verus! {

/// The version of the analysis. It grows whenever files that were indexed
/// before should be looked at again, though they have not changed.
pub const ANALYSIS_VERSION: i64 = 3;

/// How many milliseconds pass between two reports of progress.
pub const REPORT_INTERVAL_MS: u64 = 200;

// ---------------------------------------------------------------------------
// Probing
// ---------------------------------------------------------------------------

/// What the probe says of the container.
#[derive(Debug)]
pub struct FfprobeFormat {
    pub duration: Option<String>,
    pub bit_rate: Option<String>,
}

/// What the probe says of a stream.
#[derive(Debug)]
pub struct FfprobeStream {
    pub sample_rate: Option<String>,
    pub channels: Option<i64>,
}

/// What the probe says of a file.
#[derive(Debug)]
pub struct FfprobeOutput {
    pub format: FfprobeFormat,
    pub streams: Vec<FfprobeStream>,
}

/// What is known of the audio in a file. `S` is the type of a duration in
/// seconds, which is handed on as it is.
#[derive(Debug)]
pub struct Probed<S> {
    pub duration_secs: Option<S>,
    pub samplerate: Option<i64>,
    pub channels: Option<i64>,
    pub bitrate: Option<i64>,
}

/// The number in an optional text.
pub open spec fn number_in(text: Option<Seq<char>>) -> Option<i64> {
    match text {
        Some(t) => parsed_i64(t),
        None => None,
    }
}

/// The number in an optional text.
fn read_number(text: &Option<String>) -> (r: Option<i64>)
    ensures
        r == number_in(opt_text(*text)),
{
    match text {
        Some(t) => parse_i64(t.as_str()),
        None => None,
    }
}

/// Reads the numbers in what the probe says. Only the first stream counts; what
/// is missing or no number is left out.
pub fn read_probe<S: Copy>(output: &FfprobeOutput, duration_secs: Option<S>) -> (r: Probed<S>)
    ensures
        r.duration_secs == duration_secs,
        r.bitrate == number_in(opt_text(output.format.bit_rate)),
        output.streams@.len() == 0 ==> r.samplerate is None && r.channels is None,
        output.streams@.len() > 0 ==> r.samplerate == number_in(
            opt_text(output.streams@[0].sample_rate),
        ) && r.channels == output.streams@[0].channels,
{
    let bitrate: Option<i64> = read_number(&output.format.bit_rate);
    if output.streams.is_empty() {
        Probed { duration_secs, samplerate: None, channels: None, bitrate }
    } else {
        let stream = &output.streams[0];
        Probed {
            duration_secs,
            samplerate: read_number(&stream.sample_rate),
            channels: stream.channels,
            bitrate,
        }
    }
}

// ---------------------------------------------------------------------------
// Files
// ---------------------------------------------------------------------------

/// What the index holds of a file, as far as it tells whether to look again.
#[derive(Debug)]
pub struct StoredFile {
    pub path: String,
    pub state: FileState,
}

/// When a file was changed, how large it was, and which version of the analysis
/// looked at it.
#[derive(Clone, Copy, Debug)]
pub struct FileState {
    pub mtime: Option<i64>,
    pub filesize: Option<i64>,
    pub analyzed_version: i64,
}

/// What the rows say of a file: what the last row about it says.
pub open spec fn stored_state(rows: Seq<StoredFile>, path: Seq<char>) -> Option<FileState>
    decreases rows.len(),
{
    if rows.len() == 0 {
        None
    } else if rows.last().path@ == path {
        Some(rows.last().state)
    } else {
        stored_state(rows.drop_last(), path)
    }
}

/// What an index says of a path.
pub open spec fn state_in(index: Map<Seq<char>, FileState>, path: Seq<char>) -> Option<FileState> {
    if index.contains_key(path) {
        Some(index[path])
    } else {
        None
    }
}

/// Whether a file need not be looked at again: it is as old and as large as it
/// was, and the current version of the analysis has seen it.
pub open spec fn is_unchanged(
    known: Option<FileState>,
    mtime: Option<i64>,
    filesize: Option<i64>,
) -> bool {
    match known {
        Some(k) => k.mtime == mtime && k.filesize == filesize && k.analyzed_version
            >= ANALYSIS_VERSION,
        None => false,
    }
}

/// Whether two optional numbers are the same.
fn same_number(a: Option<i64>, b: Option<i64>) -> (r: bool)
    ensures
        r == (a == b),
{
    match (a, b) {
        (Some(x), Some(y)) => x == y,
        (None, None) => true,
        _ => false,
    }
}

/// An audio file that was found: its path, the parts of it that are text, and
/// what the file system says of it.
#[derive(Debug)]
pub struct FoundFile {
    pub path: String,
    pub filename: Option<String>,
    pub stem: Option<String>,
    pub extension: Option<String>,
    /// A name for the folder that the file lies in, different for each folder.
    pub folder: String,
    /// The last part of the path of that folder.
    pub parent_folder: Option<String>,
    /// The path of that folder below the root.
    pub folder_path: String,
    pub mtime: Option<i64>,
    pub filesize: Option<i64>,
}

/// What is written down of a file.
#[derive(Debug)]
pub struct FileRecord<S> {
    pub path: String,
    pub root_path: String,
    pub filename: String,
    pub ext: String,
    pub parent_folder: String,
    pub folder_path: String,
    pub duration_secs: Option<S>,
    pub samplerate: Option<i64>,
    pub channels: Option<i64>,
    pub bitrate: Option<i64>,
    pub filesize: Option<i64>,
    pub mtime: Option<i64>,
    pub description: Option<String>,
    pub tags: String,
    pub sidecar_source: Option<String>,
    pub analyzed_version: i64,
    pub dsp_tags: Option<String>,
}

/// A text, or the empty one.
pub open spec fn or_empty(t: Option<Seq<char>>) -> Seq<char> {
    match t {
        Some(s) => s,
        None => Seq::empty(),
    }
}

/// A copy of a text, or the empty one.
fn copy_or_empty(t: &Option<String>) -> (r: String)
    ensures
        r@ == or_empty(opt_text(*t)),
{
    match t {
        Some(s) => s.as_str().to_owned(),
        None => String::new(),
    }
}

/// The description that a sidecar gives.
pub open spec fn meta_description(meta: Option<MetaView>) -> Option<Seq<char>> {
    match meta {
        Some(m) => m.description,
        None => None,
    }
}

/// The tags that a sidecar gives.
pub open spec fn meta_tags(meta: Option<MetaView>) -> Option<Seq<char>> {
    match meta {
        Some(m) => m.tags,
        None => None,
    }
}

/// The name of the sidecar.
pub open spec fn meta_source(meta: Option<MetaView>) -> Option<Seq<char>> {
    match meta {
        Some(m) => Some(m.source),
        None => None,
    }
}

/// Whether `text` lists the tags of a file name and of a sidecar, ordered, each
/// once, with commas between them.
pub open spec fn is_tag_text(text: Seq<char>, stem: Seq<char>, listed: Option<Seq<char>>) -> bool {
    exists|tags: Seq<Seq<char>>|
        {
            &&& strictly_ordered(tags)
            &&& forall|t: Seq<char>| #[trigger]
                tags.contains(t) <==> name_tags(stem).contains(t) || listed_tags(listed).contains(t)
            &&& text == #[trigger] joined(tags, seq![','])
        }
}

/// There is only one such text.
pub proof fn tag_text_is_unique(
    a: Seq<char>,
    b: Seq<char>,
    stem: Seq<char>,
    listed: Option<Seq<char>>,
)
    requires
        is_tag_text(a, stem, listed),
        is_tag_text(b, stem, listed),
    ensures
        a == b,
{
    let x = choose|tags: Seq<Seq<char>>|
        {
            &&& strictly_ordered(tags)
            &&& forall|t: Seq<char>| #[trigger]
                tags.contains(t) <==> name_tags(stem).contains(t) || listed_tags(listed).contains(t)
            &&& a == #[trigger] joined(tags, seq![','])
        };
    let y = choose|tags: Seq<Seq<char>>|
        {
            &&& strictly_ordered(tags)
            &&& forall|t: Seq<char>| #[trigger]
                tags.contains(t) <==> name_tags(stem).contains(t) || listed_tags(listed).contains(t)
            &&& b == #[trigger] joined(tags, seq![','])
        };
    assert forall|t: Seq<char>| x.contains(t) <==> y.contains(t) by {}
    ordered_list_is_unique(x, y);
}

/// Whether `r` is what is written down of `file` below `root`, when the sidecars
/// of its folder say `index` and the analysis says `probed` and `labels`.
pub open spec fn is_record_of<S>(
    r: FileRecord<S>,
    root: Seq<char>,
    file: FoundFile,
    index: Map<Seq<char>, MetaView>,
    probed: Probed<S>,
    labels: Seq<Seq<char>>,
) -> bool {
    let name = or_empty(opt_text(file.filename));
    let stem = or_empty(opt_text(file.stem));
    let meta = described(index, name, stem);
    &&& r.path@ == file.path@
    &&& r.root_path@ == root
    &&& r.filename@ == name
    &&& r.ext@ == lowercase(or_empty(opt_text(file.extension)))
    &&& r.parent_folder@ == or_empty(opt_text(file.parent_folder))
    &&& r.folder_path@ == file.folder_path@
    &&& r.duration_secs == probed.duration_secs
    &&& r.samplerate == probed.samplerate
    &&& r.channels == probed.channels
    &&& r.bitrate == probed.bitrate
    &&& r.filesize == file.filesize
    &&& r.mtime == file.mtime
    &&& opt_text(r.description) == meta_description(meta)
    &&& is_tag_text(r.tags@, stem, meta_tags(meta))
    &&& opt_text(r.sidecar_source) == meta_source(meta)
    &&& r.analyzed_version == ANALYSIS_VERSION
    &&& opt_text(r.dsp_tags) == packed(labels)
}

/// What is written down of a file, from where it lies, what its sidecar says,
/// what the probe says and which labels it has.
pub fn make_record<S: Copy>(
    root: &str,
    file: &FoundFile,
    index: &SidecarIndex,
    probed: &Probed<S>,
    labels: &Vec<&'static str>,
) -> (r: FileRecord<S>)
    ensures
        is_record_of(r, root@, *file, index@, *probed, str_texts(labels@)),
{
    let filename = copy_or_empty(&file.filename);
    let stem = copy_or_empty(&file.stem);
    let meta = index.lookup(filename.as_str(), stem.as_str());
    let ghost said = described(index@, filename@, stem@);
    let tags: Vec<String> = match meta {
        Some(m) => match &m.tags {
            Some(t) => file_tags(stem.as_str(), Some(t.as_str())),
            None => file_tags(stem.as_str(), None),
        },
        None => file_tags(stem.as_str(), None),
    };
    proof {
        reveal_strlit(",");
        assert(","@ =~= seq![',']);
    }
    let tag_text = join(&tags, ",");
    assert(is_tag_text(tag_text@, stem@, meta_tags(said))) by {
        assert(strictly_ordered(texts(tags@)));
        assert(tag_text@ == joined(texts(tags@), seq![',']));
    }
    let description: Option<String> = match meta {
        Some(m) => copy_opt(&m.description),
        None => None,
    };
    let sidecar_source: Option<String> = match meta {
        Some(m) => Some(m.source.as_str().to_owned()),
        None => None,
    };
    FileRecord {
        path: file.path.as_str().to_owned(),
        root_path: root.to_owned(),
        filename,
        ext: copy_or_empty(&file.extension).as_str().to_lowercase(),
        parent_folder: copy_or_empty(&file.parent_folder),
        folder_path: file.folder_path.as_str().to_owned(),
        duration_secs: probed.duration_secs,
        samplerate: probed.samplerate,
        channels: probed.channels,
        bitrate: probed.bitrate,
        filesize: file.filesize,
        mtime: file.mtime,
        description,
        tags: tag_text,
        sidecar_source,
        analyzed_version: ANALYSIS_VERSION,
        dsp_tags: pack_labels(labels),
    }
}

// ---------------------------------------------------------------------------
// A scan
// ---------------------------------------------------------------------------

/// What to do with a file.
#[derive(Clone, Copy, Debug, PartialEq, Eq, Structural)]
pub enum Visit {
    /// Nothing: the index is up to date.
    Skip,
    /// Read the sidecars of its folder, then analyze it.
    ReadSidecars,
    /// Analyze it: the sidecars of its folder were read before.
    Analyze,
}

/// How far a scan has come.
#[derive(Debug)]
pub struct IndexProgress {
    pub root_path: String,
    pub processed: usize,
    pub total: usize,
    pub current_file: String,
}

/// A scan is over.
#[derive(Debug)]
pub struct IndexComplete {
    pub root_path: String,
    pub total_files: usize,
}

/// A scan of one root: what the index held when it began, what it has met
/// since, and what the sidecars of the folders it came through say.
pub struct Scan {
    root: String,
    known: StringHashMap<FileState>,
    seen: StringHashSet,
    folders: StringHashMap<usize>,
    sidecars: Vec<SidecarIndex>,
    total: usize,
    processed: usize,
}

impl Scan {
    /// The path of the root.
    pub closed spec fn root_path(&self) -> Seq<char> {
        self.root@
    }

    /// What the index held of each file when the scan began.
    pub closed spec fn known_files(&self) -> Map<Seq<char>, FileState> {
        self.known@
    }

    /// The paths met so far.
    pub closed spec fn seen_paths(&self) -> Set<Seq<char>> {
        self.seen@
    }

    /// What the sidecars say, for each folder that they were read of.
    pub closed spec fn folder_sidecars(&self) -> Map<Seq<char>, Map<Seq<char>, MetaView>> {
        Map::new(
            |folder: Seq<char>| self.folders@.contains_key(folder),
            |folder: Seq<char>| self.sidecars@[self.folders@[folder] as int]@,
        )
    }

    /// How many files there are.
    pub closed spec fn total_files(&self) -> int {
        self.total as int
    }

    /// How many files are done.
    pub closed spec fn done(&self) -> int {
        self.processed as int
    }

    /// What is kept for a folder is there, and no more files are done than
    /// there are.
    pub closed spec fn well_formed(&self) -> bool {
        &&& forall|folder: Seq<char>| #[trigger]
            self.folders@.contains_key(folder) ==> self.folders@[folder] < self.sidecars@.len()
        &&& self.processed <= self.total
    }

    /// What a scan keeps from one step to the next: its root, what the index
    /// held, and how many files there are.
    pub open spec fn same_scan(&self, other: &Scan) -> bool {
        &&& self.root_path() == other.root_path()
        &&& self.known_files() == other.known_files()
        &&& self.total_files() == other.total_files()
    }

    /// What the index held of a file when the scan began.
    pub open spec fn known_state(&self, path: Seq<char>) -> Option<FileState> {
        state_in(self.known_files(), path)
    }

    /// Begins a scan of `total` files below `root`. `rows` is what the index
    /// holds of the root.
    pub fn begin(root: &str, rows: &Vec<StoredFile>, total: usize) -> (r: Scan)
        ensures
            r.well_formed(),
            r.root_path() == root@,
            forall|path: Seq<char>| #[trigger] r.known_state(path) == stored_state(rows@, path),
            r.seen_paths() == Set::<Seq<char>>::empty(),
            r.folder_sidecars() == Map::<Seq<char>, Map<Seq<char>, MetaView>>::empty(),
            r.total_files() == total,
            r.done() == 0,
    {
        let mut known: StringHashMap<FileState> = StringHashMap::new();
        let mut i: usize = 0;
        while i < rows.len()
            invariant
                i <= rows@.len(),
                forall|path: Seq<char>|
                    #![trigger known@.contains_key(path)]
                    (if known@.contains_key(path) {
                        Some(known@[path])
                    } else {
                        None
                    }) == stored_state(rows@.take(i as int), path),
            decreases rows@.len() - i,
        {
            assert(rows@.take(i + 1).drop_last() =~= rows@.take(i as int));
            assert(rows@.take(i + 1).last() == rows@[i as int]);
            let ghost before = known@;
            let row = &rows[i];
            known.insert(row.path.as_str().to_owned(), row.state);
            assert forall|path: Seq<char>|
                #![trigger known@.contains_key(path)]
                (if known@.contains_key(path) {
                    Some(known@[path])
                } else {
                    None
                }) == stored_state(rows@.take(i + 1), path) by {
                assert(before.contains_key(path) || !before.contains_key(path));
            }
            i += 1;
        }
        assert(rows@.take(rows@.len() as int) =~= rows@);
        let r = Scan {
            root: root.to_owned(),
            known,
            seen: StringHashSet::new(),
            folders: StringHashMap::new(),
            sidecars: Vec::new(),
            total,
            processed: 0,
        };
        assert(r.folder_sidecars() =~= Map::<Seq<char>, Map<Seq<char>, MetaView>>::empty());
        assert forall|path: Seq<char>| #[trigger] r.known_state(path) == stored_state(
            rows@,
            path,
        ) by {
            assert(r.known@.contains_key(path) || !r.known@.contains_key(path));
        }
        r
    }

    /// Meets a file, and says what to do with it.
    pub fn visit(&mut self, file: &FoundFile) -> (r: Visit)
        requires
            old(self).well_formed(),
        ensures
            final(self).well_formed(),
            final(self).same_scan(old(self)),
            final(self).seen_paths() == old(self).seen_paths().insert(file.path@),
            final(self).folder_sidecars() == old(self).folder_sidecars(),
            final(self).done() == old(self).done(),
            r == (if is_unchanged(old(self).known_state(file.path@), file.mtime, file.filesize) {
                Visit::Skip
            } else if old(self).folder_sidecars().contains_key(file.folder@) {
                Visit::Analyze
            } else {
                Visit::ReadSidecars
            }),
    {
        self.seen.insert(file.path.as_str().to_owned());
        assert(self.folder_sidecars() =~= old(self).folder_sidecars());
        let unchanged: bool = match self.known.get(file.path.as_str()) {
            Some(k) => same_number(k.mtime, file.mtime) && same_number(k.filesize, file.filesize)
                && k.analyzed_version >= ANALYSIS_VERSION,
            None => false,
        };
        if unchanged {
            Visit::Skip
        } else if self.folders.get(file.folder.as_str()).is_some() {
            Visit::Analyze
        } else {
            Visit::ReadSidecars
        }
    }

    /// Keeps what the sidecars of a folder say. They are read once; what was
    /// read first stays.
    pub fn learn(&mut self, folder: &str, index: SidecarIndex)
        requires
            old(self).well_formed(),
        ensures
            final(self).well_formed(),
            final(self).same_scan(old(self)),
            final(self).seen_paths() == old(self).seen_paths(),
            final(self).done() == old(self).done(),
            final(self).folder_sidecars() == (if old(self).folder_sidecars().contains_key(folder@) {
                old(self).folder_sidecars()
            } else {
                old(self).folder_sidecars().insert(folder@, index@)
            }),
    {
        if self.folders.get(folder).is_none() {
            let at: usize = self.sidecars.len();
            self.sidecars.push(index);
            self.folders.insert(folder.to_owned(), at);
        }
        assert(self.folder_sidecars() =~= (if old(self).folder_sidecars().contains_key(folder@) {
            old(self).folder_sidecars()
        } else {
            old(self).folder_sidecars().insert(folder@, index@)
        }));
    }

    /// What is written down of a file whose folder is known.
    pub fn record<S: Copy>(
        &self,
        file: &FoundFile,
        probed: &Probed<S>,
        labels: &Vec<&'static str>,
    ) -> (r: FileRecord<S>)
        requires
            self.well_formed(),
            self.folder_sidecars().contains_key(file.folder@),
        ensures
            is_record_of(
                r,
                self.root_path(),
                *file,
                self.folder_sidecars()[file.folder@],
                *probed,
                str_texts(labels@),
            ),
    {
        let at: usize = match self.folders.get(file.folder.as_str()) {
            Some(n) => *n,
            None => 0,
        };
        make_record(self.root.as_str(), file, &self.sidecars[at], probed, labels)
    }

    /// The report with which a scan begins.
    pub fn first_report(&self) -> (r: IndexProgress)
        ensures
            r.root_path@ == self.root_path(),
            r.processed == 0,
            r.total == self.total_files(),
            r.current_file@ == Seq::<char>::empty(),
    {
        IndexProgress {
            root_path: self.root.as_str().to_owned(),
            processed: 0,
            total: self.total,
            current_file: String::new(),
        }
    }

    /// Is done with a file. Says so when the last report was a while ago, and
    /// always for the last file.
    pub fn finish_file(&mut self, path: &str, elapsed_ms: u64) -> (r: Option<IndexProgress>)
        requires
            old(self).well_formed(),
            old(self).done() < old(self).total_files(),
        ensures
            final(self).well_formed(),
            final(self).same_scan(old(self)),
            final(self).seen_paths() == old(self).seen_paths(),
            final(self).folder_sidecars() == old(self).folder_sidecars(),
            final(self).done() == old(self).done() + 1,
            match r {
                Some(p) => (elapsed_ms >= REPORT_INTERVAL_MS || final(self).done()
                    == final(self).total_files()) && p.root_path@ == old(self).root_path()
                    && p.processed == final(self).done() && p.total == old(self).total_files()
                    && p.current_file@ == path@,
                None => elapsed_ms < REPORT_INTERVAL_MS && final(self).done()
                    < final(self).total_files(),
            },
    {
        self.processed = self.processed + 1;
        assert(self.folder_sidecars() =~= old(self).folder_sidecars());
        if elapsed_ms >= REPORT_INTERVAL_MS || self.processed == self.total {
            Some(
                IndexProgress {
                    root_path: self.root.as_str().to_owned(),
                    processed: self.processed,
                    total: self.total,
                    current_file: path.to_owned(),
                },
            )
        } else {
            None
        }
    }

    /// The entries that are dropped: those of files that the scan has not met.
    pub fn prune_stale(&self, paths: &Vec<String>) -> (r: Vec<String>)
        ensures
            texts(r@) == unseen(texts(paths@), self.seen_paths()),
    {
        let ghost all = texts(paths@);
        let mut out: Vec<String> = Vec::new();
        let mut i: usize = 0;
        assert(texts(out@) =~= unseen(all.take(0), self.seen_paths()));
        while i < paths.len()
            invariant
                all == texts(paths@),
                i <= paths@.len(),
                texts(out@) == unseen(all.take(i as int), self.seen_paths()),
            decreases paths@.len() - i,
        {
            assert(all.take(i + 1).drop_last() =~= all.take(i as int));
            assert(all.take(i + 1).last() == paths@[i as int]@);
            if !self.seen.contains(paths[i].as_str()) {
                let ghost before = texts(out@);
                let path = paths[i].as_str().to_owned();
                let ghost added = path@;
                out.push(path);
                assert(texts(out@) =~= before.push(added));
            }
            i += 1;
        }
        assert(all.take(all.len() as int) =~= all);
        out
    }

    /// The report with which a scan ends.
    pub fn complete(&self) -> (r: IndexComplete)
        ensures
            r.root_path@ == self.root_path(),
            r.total_files == self.total_files(),
    {
        IndexComplete { root_path: self.root.as_str().to_owned(), total_files: self.total }
    }
}

/// The paths that are not among those met, in order.
pub open spec fn unseen(paths: Seq<Seq<char>>, seen: Set<Seq<char>>) -> Seq<Seq<char>>
    decreases paths.len(),
{
    if paths.len() == 0 {
        Seq::empty()
    } else {
        let before = unseen(paths.drop_last(), seen);
        if seen.contains(paths.last()) {
            before
        } else {
            before.push(paths.last())
        }
    }
}

// ---------------------------------------------------------------------------
// Laws
// ---------------------------------------------------------------------------

/// The state that a record leaves in the index.
pub open spec fn state_of<S>(r: FileRecord<S>) -> FileState {
    FileState { mtime: r.mtime, filesize: r.filesize, analyzed_version: r.analyzed_version }
}

/// The state of a file that was looked at.
pub open spec fn state_after(file: FoundFile) -> FileState {
    FileState {
        mtime: file.mtime,
        filesize: file.filesize,
        analyzed_version: ANALYSIS_VERSION,
    }
}

/// A file that was written down is not looked at again as long as its time and
/// its size stay the same, and is as soon as either differs.
pub proof fn recorded_file_is_skipped<S>(
    r: FileRecord<S>,
    root: Seq<char>,
    file: FoundFile,
    index: Map<Seq<char>, MetaView>,
    probed: Probed<S>,
    labels: Seq<Seq<char>>,
    mtime: Option<i64>,
    filesize: Option<i64>,
)
    requires
        is_record_of(r, root, file, index, probed, labels),
    ensures
        state_of(r) == state_after(file),
        is_unchanged(Some(state_of(r)), mtime, filesize) <==> mtime == file.mtime && filesize
            == file.filesize,
{
}

/// A file that an older version of the analysis looked at, or none, is looked
/// at again whatever its time and its size are.
pub proof fn older_analysis_is_repeated(
    known: Option<FileState>,
    mtime: Option<i64>,
    filesize: Option<i64>,
)
    requires
        known matches Some(k) ==> k.analyzed_version < ANALYSIS_VERSION,
    ensures
        !is_unchanged(known, mtime, filesize),
{
}

/// The entries that are dropped are exactly those of files that were not met.
pub proof fn only_unseen_entries_are_dropped(paths: Seq<Seq<char>>, seen: Set<Seq<char>>)
    ensures
        forall|p: Seq<char>| #[trigger]
            unseen(paths, seen).contains(p) <==> paths.contains(p) && !seen.contains(p),
    decreases paths.len(),
{
    if paths.len() > 0 {
        let rest = paths.drop_last();
        only_unseen_entries_are_dropped(rest, seen);
        let before = unseen(rest, seen);
        assert forall|p: Seq<char>| #[trigger]
            unseen(paths, seen).contains(p) <==> paths.contains(p) && !seen.contains(p) by {
            assert(paths.contains(p) <==> rest.contains(p) || p == paths.last()) by {
                if rest.contains(p) {
                    let k = rest.index_of(p);
                    assert(paths[k] == p);
                }
                if paths.contains(p) && p != paths.last() {
                    let k = paths.index_of(p);
                    assert(rest[k] == p);
                }
                assert(paths[paths.len() - 1] == paths.last());
            }
            if !seen.contains(paths.last()) {
                assert(before.push(paths.last()).contains(p) <==> before.contains(p) || p
                    == paths.last()) by {
                    let after = before.push(paths.last());
                    if before.contains(p) {
                        let k = before.index_of(p);
                        assert(after[k] == p);
                    }
                    if after.contains(p) && p != paths.last() {
                        let k = after.index_of(p);
                        assert(before[k] == p);
                    }
                    assert(after[before.len() as int] == paths.last());
                }
            }
        }
    } else {
        assert forall|p: Seq<char>| !(#[trigger] unseen(paths, seen).contains(p)) by {}
        assert forall|p: Seq<char>| !paths.contains(p) by {}
    }
}

/// The paths of files, in order.
pub open spec fn file_paths(files: Seq<FoundFile>) -> Seq<Seq<char>> {
    files.map_values(|f: FoundFile| f.path@)
}

/// Whether the scans are the states of one scan that meets the files one after
/// the other: it has met nothing before the first, and one path more behind
/// each.
pub open spec fn meets_in_order(scans: Seq<Scan>, files: Seq<FoundFile>) -> bool {
    &&& scans.len() == files.len() + 1
    &&& scans[0].seen_paths() == Set::<Seq<char>>::empty()
    &&& forall|i: int|
        0 <= i < files.len() ==> scans[i + 1].seen_paths() == scans[i].seen_paths().insert(
            (#[trigger] files[i]).path@,
        )
}

/// What a scan has met are the paths of its files.
proof fn seen_paths_are_those_met(scans: Seq<Scan>, files: Seq<FoundFile>, n: int)
    requires
        meets_in_order(scans, files),
        0 <= n <= files.len(),
    ensures
        forall|p: Seq<char>| #[trigger]
            scans[n].seen_paths().contains(p) <==> file_paths(files.take(n)).contains(p),
    decreases n,
{
    let now = file_paths(files.take(n));
    if n == 0 {
        assert forall|p: Seq<char>| !now.contains(p) by {}
    } else {
        seen_paths_are_those_met(scans, files, n - 1);
        let before = file_paths(files.take(n - 1));
        let last = files[n - 1].path@;
        assert(scans[n - 1 + 1].seen_paths() == scans[n - 1].seen_paths().insert(last));
        assert(now =~= before.push(last));
        assert forall|p: Seq<char>| #[trigger]
            scans[n].seen_paths().contains(p) <==> now.contains(p) by {
            assert(scans[n - 1].seen_paths().contains(p) <==> before.contains(p));
            if before.contains(p) {
                let k = before.index_of(p);
                assert(now[k] == p);
            }
            if now.contains(p) && p != last {
                let k = now.index_of(p);
                assert(before[k] == p);
            }
            assert(now[n - 1] == last);
        }
    }
}

/// What a whole scan leaves: it has met exactly the paths of its files, and of
/// the entries that are listed, exactly those of these files are kept.
pub proof fn whole_scan_keeps_what_it_met(
    scans: Seq<Scan>,
    files: Seq<FoundFile>,
    listed: Seq<Seq<char>>,
)
    requires
        meets_in_order(scans, files),
    ensures
        scans.last().seen_paths() == file_paths(files).to_set(),
        forall|p: Seq<char>|
            listed.contains(p) ==> (!(#[trigger] unseen(
                listed,
                scans.last().seen_paths(),
            ).contains(p)) <==> file_paths(files).contains(p)),
{
    seen_paths_are_those_met(scans, files, files.len() as int);
    assert(files.take(files.len() as int) =~= files);
    assert(scans.last().seen_paths() =~= file_paths(files).to_set());
    only_unseen_entries_are_dropped(listed, scans.last().seen_paths());
}

/// The index of a root when a file was dealt with: as it was when the file need not be
/// looked at again, and with a new entry otherwise. `known` is what the index
/// held when the scan began.
pub open spec fn after_file(
    index: Map<Seq<char>, FileState>,
    known: Map<Seq<char>, FileState>,
    file: FoundFile,
) -> Map<Seq<char>, FileState> {
    if is_unchanged(state_in(known, file.path@), file.mtime, file.filesize) {
        index
    } else {
        index.insert(file.path@, state_after(file))
    }
}

/// The index when all the files were dealt with, before anything is dropped.
pub open spec fn after_files(
    known: Map<Seq<char>, FileState>,
    files: Seq<FoundFile>,
) -> Map<Seq<char>, FileState>
    decreases files.len(),
{
    if files.len() == 0 {
        known
    } else {
        after_file(after_files(known, files.drop_last()), known, files.last())
    }
}

/// The index when a scan is over: without the entries of files that it has not
/// met.
pub open spec fn after_scan(
    known: Map<Seq<char>, FileState>,
    files: Seq<FoundFile>,
) -> Map<Seq<char>, FileState> {
    after_files(known, files).restrict(file_paths(files).to_set())
}

/// Whether files with the same path are as old and as large as each other.
pub open spec fn agree(files: Seq<FoundFile>) -> bool {
    forall|i: int, j: int|
        0 <= i < files.len() && 0 <= j < files.len() && (#[trigger] files[i]).path@ == (
        #[trigger] files[j]).path@ ==> files[i].mtime == files[j].mtime && files[i].filesize
            == files[j].filesize
}

/// Every path that was met has an entry, and every other path the one it had.
proof fn met_paths_have_entries(known: Map<Seq<char>, FileState>, files: Seq<FoundFile>)
    ensures
        forall|i: int|
            0 <= i < files.len() ==> after_files(known, files).contains_key(
                (#[trigger] files[i]).path@,
            ),
        forall|p: Seq<char>|
            known.contains_key(p) ==> #[trigger] after_files(known, files).contains_key(p),
        forall|p: Seq<char>|
            !file_paths(files).contains(p) ==> #[trigger] state_in(after_files(known, files), p)
                == state_in(known, p),
    decreases files.len(),
{
    if files.len() > 0 {
        let rest = files.drop_last();
        let last = files.last();
        met_paths_have_entries(known, rest);
        let before = after_files(known, rest);
        let now = after_files(known, files);
        assert forall|i: int| 0 <= i < files.len() implies now.contains_key(
            (#[trigger] files[i]).path@,
        ) by {
            if i < rest.len() {
                assert(rest[i] == files[i]);
                assert(before.contains_key(rest[i].path@));
            } else {
                assert(known.contains_key(last.path@) ==> before.contains_key(last.path@));
            }
        }
        assert forall|p: Seq<char>| known.contains_key(p) implies #[trigger] now.contains_key(p) by {
            assert(before.contains_key(p));
        }
        assert forall|p: Seq<char>| !file_paths(files).contains(p) implies #[trigger] state_in(
            now,
            p,
        ) == state_in(known, p) by {
            assert(file_paths(files)[files.len() - 1] == last.path@);
            if file_paths(rest).contains(p) {
                let k = file_paths(rest).index_of(p);
                assert(file_paths(files)[k] == p);
            }
            assert(state_in(before, p) == state_in(known, p));
        }
    }
}

/// When a scan is over, the index holds an entry for each of its files and for
/// nothing else.
pub proof fn scan_leaves_an_entry_per_file(
    known: Map<Seq<char>, FileState>,
    files: Seq<FoundFile>,
)
    ensures
        after_scan(known, files).dom() == file_paths(files).to_set(),
{
    met_paths_have_entries(known, files);
    assert forall|p: Seq<char>| after_scan(known, files).dom().contains(p) <==> file_paths(
        files,
    ).to_set().contains(p) by {
        if file_paths(files).contains(p) {
            let k = file_paths(files).index_of(p);
            assert(files[k].path@ == p);
        }
    }
    assert(after_scan(known, files).dom() =~= file_paths(files).to_set());
}

/// Every file that was dealt with is up to date.
proof fn met_files_are_up_to_date(known: Map<Seq<char>, FileState>, files: Seq<FoundFile>)
    requires
        agree(files),
    ensures
        forall|i: int|
            0 <= i < files.len() ==> is_unchanged(
                state_in(after_files(known, files), (#[trigger] files[i]).path@),
                files[i].mtime,
                files[i].filesize,
            ),
    decreases files.len(),
{
    if files.len() > 0 {
        let rest = files.drop_last();
        let last = files.last();
        assert forall|i: int, j: int|
            0 <= i < rest.len() && 0 <= j < rest.len() && (#[trigger] rest[i]).path@ == (
            #[trigger] rest[j]).path@ implies rest[i].mtime == rest[j].mtime && rest[i].filesize
            == rest[j].filesize by {
            assert(rest[i] == files[i] && rest[j] == files[j]);
        }
        met_files_are_up_to_date(known, rest);
        met_paths_have_entries(known, rest);
        let before = after_files(known, rest);
        let now = after_files(known, files);
        assert forall|i: int| 0 <= i < files.len() implies is_unchanged(
            state_in(now, (#[trigger] files[i]).path@),
            files[i].mtime,
            files[i].filesize,
        ) by {
            let at_end = files[files.len() - 1];
            assert(at_end == last);
            if i < rest.len() {
                assert(rest[i] == files[i]);
            } else if file_paths(rest).contains(last.path@) {
                let k = file_paths(rest).index_of(last.path@);
                assert(rest[k] == files[k]);
                assert(rest[k].path@ == last.path@);
            } else {
                assert(state_in(before, last.path@) == state_in(known, last.path@));
            }
        }
    }
}

/// A second scan that finds the same files, as old and as large as before, has
/// nothing to look at.
pub proof fn second_scan_skips_everything(
    known: Map<Seq<char>, FileState>,
    files: Seq<FoundFile>,
    i: int,
)
    requires
        agree(files),
        0 <= i < files.len(),
    ensures
        is_unchanged(
            state_in(after_scan(known, files), files[i].path@),
            files[i].mtime,
            files[i].filesize,
        ),
{
    met_files_are_up_to_date(known, files);
    met_paths_have_entries(known, files);
    assert(file_paths(files)[i] == files[i].path@);
    assert(file_paths(files).to_set().contains(files[i].path@));
    assert(state_in(after_scan(known, files), files[i].path@) == state_in(
        after_files(known, files),
        files[i].path@,
    ));
}

} // verus!
