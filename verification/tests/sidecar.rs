use fxbrowser::sidecar::{
    data_to_string, delimiters, description_headers, filename_headers, header_index, index_table,
    insert_entry, parse_csv, parse_txt, parse_xlsx, scan_folder_sidecars, tags_headers, Cell,
    Contents, SidecarFile, SidecarIndex, SidecarMeta,
};

fn owned(v: &[&str]) -> Vec<String> {
    v.iter().map(|s| s.to_string()).collect()
}

fn meta(description: Option<&str>, tags: Option<&str>, source: &str) -> SidecarMeta {
    SidecarMeta {
        description: description.map(String::from),
        tags: tags.map(String::from),
        source: source.to_string(),
    }
}

fn said(index: &SidecarIndex, key: &str) -> Option<(Option<String>, Option<String>, String)> {
    index.get(key).map(|m| (m.description.clone(), m.tags.clone(), m.source.clone()))
}

fn triple(
    description: Option<&str>,
    tags: Option<&str>,
    source: &str,
) -> Option<(Option<String>, Option<String>, String)> {
    Some((description.map(String::from), tags.map(String::from), source.to_string()))
}

fn file(name: &str, extension: &str, contents: Contents) -> SidecarFile {
    SidecarFile {
        name: Some(name.to_string()),
        extension: Some(extension.to_string()),
        contents,
    }
}

fn text(t: &str) -> Cell {
    Cell::Text(t.to_string())
}

#[test]
fn nothing_is_said_by_default() {
    let m = SidecarMeta::default();
    assert_eq!((m.description, m.tags, m.source), (None, None, String::new()));
    let m = meta(Some("d"), None, "s").clone();
    assert_eq!((m.description, m.tags, m.source), (Some("d".to_string()), None, "s".to_string()));
}

#[test]
fn an_entry_has_two_keys() {
    let mut index = SidecarIndex::new();
    insert_entry(&mut index, "  Big Boom.WAV ", meta(Some("loud"), Some("a,b"), "list.csv"));
    let expected = triple(Some("loud"), Some("a,b"), "list.csv");
    assert_eq!(said(&index, "big boom.wav"), expected);
    assert_eq!(said(&index, "big boom"), expected);
    assert_eq!(said(&index, "Big Boom.WAV"), None);
}

#[test]
fn letters_beyond_ascii_fold_too() {
    let mut index = SidecarIndex::new();
    insert_entry(&mut index, "ÉTÉ.Wav", meta(None, None, "s"));
    assert!(index.get("été.wav").is_some());
    assert!(index.lookup("Été.WAV", "Été").is_some());
}

#[test]
fn a_blank_name_adds_nothing() {
    let mut index = SidecarIndex::new();
    insert_entry(&mut index, " \t\u{3000}", meta(Some("x"), None, "s"));
    assert!(index.get("").is_none());
    assert!(index.get(" \t").is_none());
}

#[test]
fn a_name_without_stem_is_its_own_key() {
    let mut index = SidecarIndex::new();
    insert_entry(&mut index, "..", meta(Some("x"), None, "s"));
    assert!(index.get("..").is_some());
}

#[test]
fn a_path_has_the_stem_of_its_last_part() {
    let mut index = SidecarIndex::new();
    insert_entry(&mut index, "fx/Boom.wav", meta(Some("x"), None, "s"));
    assert!(index.get("fx/boom.wav").is_some());
    assert!(index.get("boom").is_some());
    assert!(index.get("boom.wav").is_none());
}

#[test]
fn the_first_entry_for_a_key_stays() {
    let mut index = SidecarIndex::new();
    insert_entry(&mut index, "boom.wav", meta(Some("first"), None, "a"));
    insert_entry(&mut index, "boom.mp3", meta(Some("second"), None, "b"));
    insert_entry(&mut index, "BOOM.wav", meta(Some("third"), None, "c"));
    assert_eq!(said(&index, "boom.wav"), triple(Some("first"), None, "a"));
    assert_eq!(said(&index, "boom.mp3"), triple(Some("second"), None, "b"));
    assert_eq!(said(&index, "boom"), triple(Some("first"), None, "a"));
}

#[test]
fn lookup_tries_the_name_and_then_the_stem() {
    let mut index = SidecarIndex::new();
    insert_entry(&mut index, "boom.wav", meta(Some("by name"), None, "a"));
    insert_entry(&mut index, "clap", meta(Some("by stem"), None, "a"));
    let description = |name: &str, stem: &str| {
        index.lookup(name, stem).and_then(|m| m.description.clone())
    };
    assert_eq!(description("Boom.WAV", "Boom").as_deref(), Some("by name"));
    assert_eq!(description("boom.flac", "boom").as_deref(), Some("by name"));
    assert_eq!(description("Clap.ogg", "Clap").as_deref(), Some("by stem"));
    assert_eq!(description("snap.ogg", "snap"), None);
}

#[test]
fn headers_in_any_case() {
    let headers = owned(&["Id", "  File Name ", "NOTES", "Name", "Genre", "tags"]);
    assert_eq!(header_index(&headers, &filename_headers()), Some(1));
    assert_eq!(header_index(&headers, &description_headers()), Some(2));
    assert_eq!(header_index(&headers, &tags_headers()), Some(4));
    assert_eq!(header_index(&owned(&["a", "b"]), &tags_headers()), None);
    assert_eq!(header_index(&Vec::new(), &tags_headers()), None);
}

#[test]
fn header_candidates() {
    assert_eq!(filename_headers(), ["filename", "file name", "file", "name", "sample", "asset"]);
    assert_eq!(
        description_headers(),
        ["description", "desc", "notes", "note", "summary", "comment"]
    );
    assert_eq!(tags_headers(), ["tags", "keywords", "category", "categories", "genre"]);
    assert_eq!(delimiters(), [" - ", ":", ",", "\t"]);
}

#[test]
fn rows_of_a_table() {
    let mut index = SidecarIndex::new();
    let headers = owned(&["desc", "asset", "keywords"]);
    let rows = vec![
        Some(owned(&["loud", "a.wav", "x;y"])),
        None,
        Some(owned(&["short", "b.wav"])),
        Some(owned(&["nameless"])),
    ];
    index_table(&mut index, &headers, &rows, "t");
    assert_eq!(said(&index, "a.wav"), triple(Some("loud"), Some("x;y"), "t"));
    assert_eq!(said(&index, "b.wav"), triple(Some("short"), None, "t"));
    assert_eq!(said(&index, ""), None);
}

#[test]
fn the_first_column_names_files_when_no_header_does() {
    let mut index = SidecarIndex::new();
    let rows = vec![Some(owned(&["a.wav", "green"]))];
    index_table(&mut index, &owned(&["what", "colour"]), &rows, "t");
    assert_eq!(said(&index, "a.wav"), triple(None, None, "t"));
}

#[test]
fn comma_separated_values() {
    let mut index = SidecarIndex::new();
    let data = b"Filename,Description,Tags\n\
        boom.wav,\"A big, \"\"deep\"\" boom\",\"boom;low\"\n\
        short.wav\n\
        long.wav,d,t,more\n";
    parse_csv(&mut index, &data.to_vec(), "list.csv");
    assert_eq!(
        said(&index, "boom"),
        triple(Some("A big, \"deep\" boom"), Some("boom;low"), "list.csv")
    );
    assert_eq!(said(&index, "short.wav"), triple(None, None, "list.csv"));
    assert_eq!(said(&index, "long.wav"), triple(Some("d"), Some("t"), "list.csv"));
    assert_eq!(said(&index, "filename"), None);
}

#[test]
fn a_record_that_is_no_text_is_left_out() {
    let mut index = SidecarIndex::new();
    let mut data = b"file,desc\na.wav,one\nb.wav,".to_vec();
    data.extend_from_slice(&[0xff, 0xfe]);
    data.extend_from_slice(b"\nc.wav,three\n");
    parse_csv(&mut index, &data, "s");
    assert!(index.get("a.wav").is_some());
    assert!(index.get("b.wav").is_none());
    assert!(index.get("c.wav").is_some());
}

#[test]
fn headers_that_are_no_text_end_the_table() {
    let mut index = SidecarIndex::new();
    parse_csv(&mut index, &b"\xff\xfe,desc\na.wav,one\n".to_vec(), "s");
    assert!(index.get("a.wav").is_none());
    parse_csv(&mut index, &Vec::new(), "s");
    assert!(index.get("").is_none());
}

#[test]
fn cells_as_text() {
    assert_eq!(data_to_string(&text(" a ")), " a ");
    assert_eq!(data_to_string(&Cell::Number("1.5".to_string())), "1.5");
    assert_eq!(data_to_string(&Cell::Integer(-42)), "-42");
    assert_eq!(data_to_string(&Cell::Integer(i64::MIN)), "-9223372036854775808");
    assert_eq!(data_to_string(&Cell::Flag(true)), "true");
    assert_eq!(data_to_string(&Cell::Flag(false)), "false");
    assert_eq!(data_to_string(&Cell::Other), "");
}

#[test]
fn the_first_sheet_of_a_workbook() {
    let mut index = SidecarIndex::new();
    let sheet = vec![
        vec![text("Sample"), text("Comment"), text("Category")],
        vec![text("Rain.wav"), Cell::Integer(7), Cell::Flag(true)],
        vec![Cell::Other, text("nameless"), Cell::Other],
        vec![Cell::Number("808".to_string()), Cell::Other, Cell::Other],
    ];
    parse_xlsx(&mut index, &sheet, "list.xlsx");
    assert_eq!(said(&index, "rain"), triple(Some("7"), Some("true"), "list.xlsx"));
    assert_eq!(said(&index, "808"), triple(Some(""), Some(""), "list.xlsx"));
    assert_eq!(said(&index, ""), None);
    let mut empty = SidecarIndex::new();
    parse_xlsx(&mut empty, &Vec::new(), "list.xlsx");
    assert!(empty.get("sample").is_none());
}

#[test]
fn lines_of_text() {
    let mut index = SidecarIndex::new();
    let content = "Sounds of the city\r\n\
        \r\n\
        Boom.wav - A boom: big, deep\r\n\
        clap.MP3: A clap\n\
        snap.ogg,A snap\n\
        pop.flac\tA pop\n\
        note.txt: not a sound\n\
        \x20 hiss.aif   -   A hiss  \n";
    parse_txt(&mut index, content, "readme.txt");
    assert_eq!(said(&index, "boom.wav"), triple(Some("A boom: big, deep"), None, "readme.txt"));
    assert_eq!(said(&index, "clap.mp3"), triple(Some("A clap"), None, "readme.txt"));
    assert_eq!(said(&index, "snap"), triple(Some("A snap"), None, "readme.txt"));
    assert_eq!(said(&index, "pop"), triple(Some("A pop"), None, "readme.txt"));
    assert_eq!(said(&index, "hiss.aif"), triple(Some("A hiss"), None, "readme.txt"));
    assert_eq!(said(&index, "note.txt"), None);
    assert_eq!(said(&index, "sounds of the city"), None);
}

#[test]
fn delimiters_are_tried_in_order() {
    let mut index = SidecarIndex::new();
    parse_txt(&mut index, "a.wav, b.wav\tboth", "s");
    assert_eq!(said(&index, "a.wav"), triple(Some("b.wav\tboth"), None, "s"));
    parse_txt(&mut index, "c.wav\td.wav, both", "s");
    assert_eq!(said(&index, "c.wav\td.wav"), triple(Some("both"), None, "s"));
    parse_txt(&mut index, "my: e.wav - long", "s");
    assert_eq!(said(&index, "my: e.wav"), triple(Some("long"), None, "s"));
    parse_txt(&mut index, "x - f.wav: later", "s");
    assert_eq!(said(&index, "x - f.wav"), triple(Some("later"), None, "s"));
}

#[test]
fn sidecars_of_a_folder() {
    let files = vec![
        file("b.txt", "txt", Contents::Bytes(b"boom.wav: from text".to_vec())),
        file("a.CSV", "CSV", Contents::Bytes(b"file,desc\nboom.wav,table\nclap.wav,table".to_vec())),
        file(
            "c.xlsm",
            "xlsm",
            Contents::Sheet(vec![
                vec![text("file"), text("desc")],
                vec![text("clap.wav"), text("sheet")],
                vec![text("snap.wav"), text("sheet")],
            ]),
        ),
        file("d.md", "md", Contents::Bytes(b"pop.wav: no sidecar".to_vec())),
        file("e.txt", "txt", Contents::Unread),
        file("f.txt", "txt", Contents::Bytes(b"hiss.wav: \xff".to_vec())),
        SidecarFile {
            name: None,
            extension: Some("txt".to_string()),
            contents: Contents::Bytes("hum.wav: d\u{e9}j\u{e0}".to_string().into_bytes()),
        },
        SidecarFile {
            name: Some("g".to_string()),
            extension: None,
            contents: Contents::Bytes(b"tick.wav: none".to_vec()),
        },
    ];
    let index = scan_folder_sidecars(&files);
    assert_eq!(said(&index, "boom.wav"), triple(Some("from text"), None, "b.txt"));
    assert_eq!(said(&index, "clap.wav"), triple(Some("table"), None, "a.CSV"));
    assert_eq!(said(&index, "snap.wav"), triple(Some("sheet"), None, "c.xlsm"));
    assert_eq!(said(&index, "hum.wav"), triple(Some("déjà"), None, ""));
    for absent in ["pop.wav", "hiss.wav", "tick.wav"] {
        assert_eq!(said(&index, absent), None);
    }
}

#[test]
fn an_empty_folder_says_nothing() {
    assert!(scan_folder_sidecars(&Vec::new()).get("boom.wav").is_none());
}
