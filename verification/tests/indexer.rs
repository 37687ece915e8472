use fxbrowser::db::db_path;
use fxbrowser::formats::{audio_extensions, is_audio_file, sidecar_format, SidecarFormat};
use fxbrowser::indexer::{
    make_record, read_probe, FfprobeFormat, FfprobeOutput, FfprobeStream, FileState, FoundFile,
    Probed, Scan, StoredFile, Visit, ANALYSIS_VERSION,
};
use fxbrowser::roots::{add_root, now_secs, scan_finished, scan_started};
use fxbrowser::sidecar::{insert_entry, SidecarIndex, SidecarMeta};

fn found(path: &str, folder: &str, stem: &str, extension: &str) -> FoundFile {
    FoundFile {
        path: path.to_string(),
        filename: Some(format!("{stem}.{extension}")),
        stem: Some(stem.to_string()),
        extension: Some(extension.to_string()),
        folder: folder.to_string(),
        parent_folder: Some("air".to_string()),
        folder_path: "fx/air".to_string(),
        mtime: Some(100),
        filesize: Some(2000),
    }
}

fn stored(path: &str, mtime: Option<i64>, filesize: Option<i64>, version: i64) -> StoredFile {
    StoredFile {
        path: path.to_string(),
        state: FileState { mtime, filesize, analyzed_version: version },
    }
}

fn probed() -> Probed<f64> {
    Probed {
        duration_secs: Some(1.25),
        samplerate: Some(48000),
        channels: Some(2),
        bitrate: Some(320000),
    }
}

#[test]
fn audio_files_by_extension() {
    assert_eq!(audio_extensions(), ["wav", "mp3", "aiff", "aif", "flac", "ogg", "m4a"]);
    assert!(is_audio_file(Some("wav")));
    assert!(is_audio_file(Some("FLAC")));
    assert!(!is_audio_file(Some("txt")));
    assert!(!is_audio_file(Some("")));
    assert!(!is_audio_file(None));
}

#[test]
fn sidecars_by_extension() {
    assert_eq!(sidecar_format(Some("CSV")), Some(SidecarFormat::Csv));
    assert_eq!(sidecar_format(Some("xlsx")), Some(SidecarFormat::Workbook));
    assert_eq!(sidecar_format(Some("Xls")), Some(SidecarFormat::Workbook));
    assert_eq!(sidecar_format(Some("xlsm")), Some(SidecarFormat::Workbook));
    assert_eq!(sidecar_format(Some("txt")), Some(SidecarFormat::Text));
    assert_eq!(sidecar_format(Some("ods")), None);
    assert_eq!(sidecar_format(None), None);
}

#[test]
fn the_database_lies_in_the_data_directory() {
    assert_eq!(db_path("/home/me/data"), "/home/me/data/fxbrowser.sqlite3");
    assert_eq!(db_path("/home/me/data/"), "/home/me/data/fxbrowser.sqlite3");
    assert_eq!(db_path(""), "fxbrowser.sqlite3");
}

#[test]
fn only_a_folder_becomes_a_root() {
    let root = add_root("/lib", true).unwrap();
    assert_eq!(root.root_path, "/lib");
    assert_eq!(root.label.as_deref(), Some("/lib"));
    assert_eq!(root.status, "idle");
    assert_eq!(root.last_scanned_at, None);
    assert_eq!(root.total_files, 0);
    assert_eq!(add_root("/a.wav", false).unwrap_err(), "/a.wav is not a directory");
}

#[test]
fn a_scan_changes_the_root() {
    let root = scan_started("/lib");
    assert_eq!((root.status.as_str(), root.last_scanned_at, root.total_files), ("scanning", None, 0));
    let root = scan_finished("/lib", 17, 3);
    assert_eq!((root.status.as_str(), root.last_scanned_at, root.total_files), ("idle", Some(17), 3));
    assert_eq!(now_secs(Some(1_700_000_000)), 1_700_000_000);
    assert_eq!(now_secs(None), 0);
}

#[test]
fn numbers_in_the_probe() {
    let output = FfprobeOutput {
        format: FfprobeFormat { duration: None, bit_rate: Some("128000".to_string()) },
        streams: vec![
            FfprobeStream { sample_rate: Some("44100".to_string()), channels: Some(1) },
            FfprobeStream { sample_rate: Some("8000".to_string()), channels: Some(6) },
        ],
    };
    let p = read_probe(&output, Some(2.5f64));
    assert_eq!(p.duration_secs, Some(2.5));
    assert_eq!(p.bitrate, Some(128000));
    assert_eq!(p.samplerate, Some(44100));
    assert_eq!(p.channels, Some(1));
}

#[test]
fn what_the_probe_leaves_out() {
    let output = FfprobeOutput {
        format: FfprobeFormat { duration: None, bit_rate: Some("N/A".to_string()) },
        streams: Vec::new(),
    };
    let p = read_probe::<f64>(&output, None);
    assert_eq!((p.duration_secs, p.bitrate, p.samplerate, p.channels), (None, None, None, None));
    let output = FfprobeOutput {
        format: FfprobeFormat { duration: None, bit_rate: None },
        streams: vec![FfprobeStream { sample_rate: Some("fast".to_string()), channels: None }],
    };
    let p = read_probe::<f64>(&output, None);
    assert_eq!((p.bitrate, p.samplerate, p.channels), (None, None, None));
}

#[test]
fn a_record_of_a_described_file() {
    let mut index = SidecarIndex::new();
    insert_entry(
        &mut index,
        "Wind_Howl.wav",
        SidecarMeta {
            description: Some("a storm".to_string()),
            tags: Some("Storm; wind".to_string()),
            source: "list.csv".to_string(),
        },
    );
    let file = found("/lib/fx/air/Wind_Howl.WAV", "air", "Wind_Howl", "WAV");
    let r = make_record("/lib", &file, &index, &probed(), &vec!["drone", "dark"]);
    assert_eq!(r.path, "/lib/fx/air/Wind_Howl.WAV");
    assert_eq!(r.root_path, "/lib");
    assert_eq!(r.filename, "Wind_Howl.WAV");
    assert_eq!(r.ext, "wav");
    assert_eq!(r.parent_folder, "air");
    assert_eq!(r.folder_path, "fx/air");
    assert_eq!(r.duration_secs, Some(1.25));
    assert_eq!((r.samplerate, r.channels, r.bitrate), (Some(48000), Some(2), Some(320000)));
    assert_eq!((r.filesize, r.mtime), (Some(2000), Some(100)));
    assert_eq!(r.description.as_deref(), Some("a storm"));
    assert_eq!(r.tags, "howl,storm,wind");
    assert_eq!(r.sidecar_source.as_deref(), Some("list.csv"));
    assert_eq!(r.analyzed_version, 3);
    assert_eq!(r.dsp_tags.as_deref(), Some(",drone,dark,"));
}

#[test]
fn a_record_of_a_file_nobody_describes() {
    let mut file = found("/lib/x", "air", "x", "wav");
    file.filename = None;
    file.stem = None;
    file.extension = None;
    file.parent_folder = None;
    let r = make_record("/lib", &file, &SidecarIndex::new(), &probed(), &Vec::new());
    assert_eq!((r.filename.as_str(), r.ext.as_str(), r.parent_folder.as_str()), ("", "", ""));
    assert_eq!(r.tags, "");
    assert_eq!((r.description, r.sidecar_source, r.dsp_tags), (None, None, None));
}

#[test]
fn unchanged_files_are_skipped() {
    let rows = vec![
        stored("/a", Some(100), Some(2000), ANALYSIS_VERSION),
        stored("/b", Some(101), Some(2000), ANALYSIS_VERSION),
        stored("/c", Some(100), None, ANALYSIS_VERSION),
        stored("/d", Some(100), Some(2000), ANALYSIS_VERSION - 1),
        stored("/e", Some(100), Some(2000), ANALYSIS_VERSION + 1),
        stored("/f", None, None, ANALYSIS_VERSION),
    ];
    let mut scan = Scan::begin("/", &rows, 7);
    assert_eq!(scan.visit(&found("/a", "x", "a", "wav")), Visit::Skip);
    assert_eq!(scan.visit(&found("/b", "x", "b", "wav")), Visit::ReadSidecars);
    assert_eq!(scan.visit(&found("/c", "x", "c", "wav")), Visit::ReadSidecars);
    assert_eq!(scan.visit(&found("/d", "x", "d", "wav")), Visit::ReadSidecars);
    assert_eq!(scan.visit(&found("/e", "x", "e", "wav")), Visit::Skip);
    assert_eq!(scan.visit(&found("/g", "x", "g", "wav")), Visit::ReadSidecars);
    let mut unknown = found("/f", "x", "f", "wav");
    unknown.mtime = None;
    unknown.filesize = None;
    assert_eq!(scan.visit(&unknown), Visit::Skip);
}

#[test]
fn the_last_row_about_a_file_counts() {
    let rows = vec![
        stored("/a", Some(1), Some(1), ANALYSIS_VERSION),
        stored("/a", Some(100), Some(2000), ANALYSIS_VERSION),
    ];
    let mut scan = Scan::begin("/", &rows, 1);
    assert_eq!(scan.visit(&found("/a", "x", "a", "wav")), Visit::Skip);
}

#[test]
fn a_recorded_file_is_skipped_next_time() {
    let file = found("/lib/a.wav", "lib", "a", "wav");
    let r = make_record("/lib", &file, &SidecarIndex::new(), &probed(), &Vec::new());
    let rows = vec![stored(&r.path, r.mtime, r.filesize, r.analyzed_version)];
    let mut scan = Scan::begin("/lib", &rows, 1);
    assert_eq!(scan.visit(&file), Visit::Skip);
    let mut touched = found("/lib/a.wav", "lib", "a", "wav");
    touched.mtime = Some(101);
    assert_eq!(scan.visit(&touched), Visit::ReadSidecars);
}

#[test]
fn sidecars_are_read_once_per_folder() {
    let mut scan = Scan::begin("/lib", &Vec::new(), 3);
    let a = found("/lib/x/a.wav", "x", "a", "wav");
    let b = found("/lib/x/b.wav", "x", "b", "wav");
    let c = found("/lib/y/a.wav", "y", "a", "wav");
    assert_eq!(scan.visit(&a), Visit::ReadSidecars);
    let mut first = SidecarIndex::new();
    let entry = |d: &str| SidecarMeta {
        description: Some(d.to_string()),
        tags: None,
        source: "s".to_string(),
    };
    insert_entry(&mut first, "a.wav", entry("in x"));
    scan.learn("x", first);
    let mut second = SidecarIndex::new();
    insert_entry(&mut second, "a.wav", entry("too late"));
    scan.learn("x", second);
    assert_eq!(scan.visit(&b), Visit::Analyze);
    assert_eq!(scan.visit(&c), Visit::ReadSidecars);
    let mut other = SidecarIndex::new();
    insert_entry(&mut other, "a.wav", entry("in y"));
    scan.learn("y", other);
    let said = |f: &FoundFile| scan.record(f, &probed(), &Vec::new()).description;
    assert_eq!(said(&a).as_deref(), Some("in x"));
    assert_eq!(said(&b), None);
    assert_eq!(said(&c).as_deref(), Some("in y"));
    assert_eq!(scan.record(&a, &probed(), &Vec::new()).root_path, "/lib");
}

#[test]
fn progress_is_reported_now_and_then() {
    let mut scan = Scan::begin("/lib", &Vec::new(), 3);
    let p = scan.first_report();
    assert_eq!((p.root_path.as_str(), p.processed, p.total), ("/lib", 0, 3));
    assert_eq!(p.current_file, "");
    assert!(scan.finish_file("/lib/a", 199).is_none());
    let p = scan.finish_file("/lib/b", 200).unwrap();
    assert_eq!((p.root_path.as_str(), p.processed, p.total), ("/lib", 2, 3));
    assert_eq!(p.current_file, "/lib/b");
    let p = scan.finish_file("/lib/c", 0).unwrap();
    assert_eq!((p.processed, p.current_file.as_str()), (3, "/lib/c"));
    let done = scan.complete();
    assert_eq!((done.root_path.as_str(), done.total_files), ("/lib", 3));
}

#[test]
fn entries_of_files_not_met_are_dropped() {
    let mut scan = Scan::begin("/lib", &Vec::new(), 2);
    scan.visit(&found("/lib/a", "lib", "a", "wav"));
    scan.visit(&found("/lib/c", "lib", "c", "wav"));
    let paths: Vec<String> = ["/lib/a", "/lib/b", "/lib/c", "/lib/A"].map(String::from).to_vec();
    assert_eq!(scan.prune_stale(&paths), ["/lib/b", "/lib/A"]);
    assert!(scan.prune_stale(&Vec::new()).is_empty());
}

#[test]
fn a_whole_scan_keeps_the_entries_of_its_files() {
    let rows = vec![
        stored("/lib/same", Some(100), Some(2000), ANALYSIS_VERSION),
        stored("/lib/old", Some(100), Some(2000), 0),
        stored("/lib/gone", Some(100), Some(2000), ANALYSIS_VERSION),
    ];
    let files: Vec<FoundFile> = ["/lib/same", "/lib/old", "/lib/new"]
        .iter()
        .map(|path| found(path, "lib", "x", "wav"))
        .collect();
    let mut index: Vec<StoredFile> = rows
        .iter()
        .map(|r| stored(&r.path, r.state.mtime, r.state.filesize, r.state.analyzed_version))
        .collect();
    let mut scan = Scan::begin("/lib", &rows, files.len());
    for file in &files {
        let visit = scan.visit(file);
        if visit == Visit::ReadSidecars {
            scan.learn(&file.folder, SidecarIndex::new());
        }
        if visit != Visit::Skip {
            let r = scan.record(file, &probed(), &Vec::new());
            index.retain(|row| row.path != r.path);
            index.push(stored(&r.path, r.mtime, r.filesize, r.analyzed_version));
        }
    }
    let listed: Vec<String> = index.iter().map(|row| row.path.clone()).collect();
    let stale = scan.prune_stale(&listed);
    assert_eq!(stale, ["/lib/gone"]);
    index.retain(|row| !stale.contains(&row.path));
    let mut left: Vec<&str> = index.iter().map(|row| row.path.as_str()).collect();
    left.sort();
    assert_eq!(left, ["/lib/new", "/lib/old", "/lib/same"]);

    let mut again = Scan::begin("/lib", &index, files.len());
    for file in &files {
        assert_eq!(again.visit(file), Visit::Skip);
    }
    assert!(again.prune_stale(&listed).contains(&"/lib/gone".to_string()));
}
