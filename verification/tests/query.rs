use fxbrowser::query::{
    build_conditions, categories_query, folder_counts_query, page, sanitize_fts_query,
    search_query, sort_clause, sound_types_query, FacetExclude, Query, SearchFilters, SqlValue,
};

fn no_filters() -> SearchFilters<f64> {
    SearchFilters {
        text: None,
        root_path: None,
        folder_path: None,
        categories: None,
        min_secs: None,
        max_secs: None,
        favorites_only: None,
        sound_types: None,
        limit: None,
        offset: None,
        sort_by: None,
        sort_dir: None,
    }
}

fn all_filters() -> SearchFilters<f64> {
    SearchFilters {
        text: Some("big whoosh!".to_string()),
        root_path: Some("/lib".to_string()),
        folder_path: Some("fx/air".to_string()),
        categories: Some(vec!["air".to_string(), "wind".to_string()]),
        min_secs: Some(0.5),
        max_secs: Some(9.0),
        favorites_only: Some(true),
        sound_types: Some(vec!["whoosh".to_string(), "bright".to_string()]),
        limit: Some(50),
        offset: Some(100),
        sort_by: Some("duration".to_string()),
        sort_dir: Some("DESC".to_string()),
    }
}

fn shown(values: &[SqlValue<f64>]) -> Vec<String> {
    values
        .iter()
        .map(|v| match v {
            SqlValue::Text(t) => format!("t:{t}"),
            SqlValue::Seconds(s) => format!("s:{s}"),
            SqlValue::Integer(i) => format!("i:{i}"),
        })
        .collect()
}

fn balanced(q: &Query<f64>) -> bool {
    q.sql.matches('?').count() == q.params.len()
}

#[test]
fn fts_query_quotes_each_word() {
    assert_eq!(sanitize_fts_query("big whoosh!"), "\"big\"* \"whoosh\"*");
    assert_eq!(sanitize_fts_query("  a\"b*c  (d) "), "\"abc\"* \"d\"*");
    assert_eq!(sanitize_fts_query("-- ** \"\""), "");
    assert_eq!(sanitize_fts_query("Été 9"), "\"Été\"* \"9\"*");
    assert_eq!(sanitize_fts_query(""), "");
}

#[test]
fn sanitizing_twice_changes_nothing() {
    for text in ["big whoosh!", " a\"b*c  (d) ", "-- **", "", "Été\u{3000}9\u{a0}x", "\"rain\"* 3"] {
        let once = sanitize_fts_query(text);
        assert_eq!(sanitize_fts_query(&once), once);
        let kept: String = once.chars().filter(|c| c.is_alphanumeric()).collect();
        let asked: String = text.chars().filter(|c| c.is_alphanumeric()).collect();
        assert_eq!(kept, asked);
        assert_eq!(once.is_empty(), asked.is_empty());
    }
}

#[test]
fn a_text_asks_for_something_when_it_has_a_letter_or_a_digit() {
    for (text, asks) in [("!! x", true), ("\t7\n", true), ("!!", false), (" \u{2003}", false)] {
        let mut f = no_filters();
        f.text = Some(text.to_string());
        let c = build_conditions(&f, FacetExclude::default());
        assert_eq!(c.needs_fts, asks);
        assert_eq!(c.conditions.len(), asks as usize);
    }
}

#[test]
fn every_set_of_exclusions_is_a_search_without_those_selections() {
    for bits in 0..8u8 {
        let exclude = FacetExclude {
            categories: bits & 1 != 0,
            sound_types: bits & 2 != 0,
            folder: bits & 4 != 0,
        };
        let mut without = all_filters();
        if exclude.categories {
            without.categories = None;
        }
        if exclude.sound_types {
            without.sound_types = None;
        }
        if exclude.folder {
            without.root_path = None;
            without.folder_path = None;
        }
        let facet = build_conditions(&all_filters(), exclude);
        let search = build_conditions(&without, FacetExclude::default());
        assert_eq!(facet.conditions, search.conditions);
        assert_eq!(shown(&facet.params), shown(&search.params));
    }
}

#[test]
fn chosen_sound_types_do_not_change_the_facet_query() {
    let mut other = all_filters();
    other.sound_types = Some(vec!["drone".to_string()]);
    let (a, b) = (sound_types_query(&all_filters()), sound_types_query(&other));
    assert_eq!(a.sql, b.sql);
    assert_eq!(shown(&a.params), shown(&b.params));
}

#[test]
fn each_column_has_its_order() {
    let cases = [
        (Some("name"), Some("desc"), "f.filename DESC"),
        (Some("name"), None, "f.filename ASC"),
        (Some("folder"), Some("DESC"), "f.folder_path DESC, f.filename ASC"),
        (Some("folder"), Some("up"), "f.folder_path ASC, f.filename ASC"),
        (Some("duration"), Some("Desc"), "f.duration_secs DESC, f.filename ASC"),
        (Some("duration"), None, "f.duration_secs ASC, f.filename ASC"),
        (Some("type"), Some("desc"), "f.dsp_tags DESC, f.filename ASC"),
        (Some("type"), Some("asc"), "f.dsp_tags ASC, f.filename ASC"),
        (Some("1; DROP TABLE files"), Some("desc"), "f.parent_folder ASC, f.filename ASC"),
        (None, Some("desc"), "f.parent_folder ASC, f.filename ASC"),
    ];
    for (by, dir, expected) in cases {
        assert_eq!(sort_clause(by, dir), expected);
    }
}

#[test]
fn pages_have_bounds() {
    assert_eq!(page(None, None), (200, 0));
    assert_eq!(page(Some(0), Some(-5)), (1, 0));
    assert_eq!(page(Some(5000), Some(7)), (1000, 7));
    assert_eq!(page(Some(30), Some(60)), (30, 60));
}

#[test]
fn all_conditions_in_order() {
    let c = build_conditions(&all_filters(), FacetExclude::default());
    assert!(c.needs_fts);
    assert_eq!(
        c.conditions,
        vec![
            "files_fts MATCH ?",
            "f.root_path = ?",
            "(f.folder_path = ? OR f.folder_path LIKE ?)",
            "f.parent_folder IN (?,?)",
            "f.duration_secs >= ?",
            "f.duration_secs <= ?",
            "f.favorite = 1",
            "(f.dsp_tags LIKE ? OR f.dsp_tags LIKE ?)",
        ]
    );
    assert_eq!(
        shown(&c.params),
        vec![
            "t:\"big\"* \"whoosh\"*", "t:/lib", "t:fx/air", "t:fx/air/%", "t:air", "t:wind",
            "s:0.5", "s:9", "t:%,whoosh,%", "t:%,bright,%",
        ]
    );
}

#[test]
fn empty_filters_add_nothing() {
    let mut f = no_filters();
    f.text = Some("  \t ".to_string());
    f.root_path = Some(String::new());
    f.folder_path = Some(String::new());
    f.categories = Some(Vec::new());
    f.sound_types = Some(Vec::new());
    f.favorites_only = Some(false);
    let c = build_conditions(&f, FacetExclude::default());
    assert!(!c.needs_fts);
    assert!(c.conditions.is_empty());
    assert!(c.params.is_empty());
    f.text = Some("!!! ???".to_string());
    let c = build_conditions(&f, FacetExclude::default());
    assert!(!c.needs_fts);
    assert!(c.conditions.is_empty());
}

#[test]
fn search_is_one_page_of_the_matches() {
    let q = search_query(&all_filters());
    assert_eq!(
        q.sql,
        "SELECT f.id, f.path, f.root_path, f.filename, f.ext, f.parent_folder, f.folder_path, \
         f.duration_secs, f.description, f.tags, f.dsp_tags, f.favorite FROM files f \
         JOIN files_fts ON files_fts.rowid = f.id WHERE files_fts MATCH ? AND f.root_path = ? \
         AND (f.folder_path = ? OR f.folder_path LIKE ?) AND f.parent_folder IN (?,?) \
         AND f.duration_secs >= ? AND f.duration_secs <= ? AND f.favorite = 1 \
         AND (f.dsp_tags LIKE ? OR f.dsp_tags LIKE ?) \
         ORDER BY f.duration_secs DESC, f.filename ASC LIMIT ? OFFSET ?"
    );
    assert_eq!(&shown(&q.params)[10..], &["i:50", "i:100"]);
    let q = search_query(&no_filters());
    assert!(q.sql.ends_with(
        "FROM files f ORDER BY f.parent_folder ASC, f.filename ASC LIMIT ? OFFSET ?"
    ));
    assert_eq!(shown(&q.params), vec!["i:200", "i:0"]);
}

#[test]
fn facets_ignore_their_own_selection_only() {
    let f = all_filters();
    let mut without = all_filters();
    without.categories = None;
    let facet = build_conditions(
        &f,
        FacetExclude { categories: true, sound_types: false, folder: false },
    );
    let search = build_conditions(&without, FacetExclude::default());
    assert_eq!(facet.conditions, search.conditions);
    assert_eq!(shown(&facet.params), shown(&search.params));

    let mut without = all_filters();
    without.sound_types = None;
    let facet = build_conditions(
        &f,
        FacetExclude { categories: false, sound_types: true, folder: false },
    );
    let search = build_conditions(&without, FacetExclude::default());
    assert_eq!(facet.conditions, search.conditions);
    assert_eq!(shown(&facet.params), shown(&search.params));

    let mut without = all_filters();
    without.root_path = None;
    without.folder_path = None;
    let facet = build_conditions(
        &f,
        FacetExclude { categories: false, sound_types: false, folder: true },
    );
    let search = build_conditions(&without, FacetExclude::default());
    assert_eq!(facet.conditions, search.conditions);
    assert_eq!(shown(&facet.params), shown(&search.params));
}

#[test]
fn facet_queries() {
    assert_eq!(
        sound_types_query(&no_filters()).sql,
        "SELECT f.dsp_tags FROM files f WHERE f.dsp_tags IS NOT NULL AND f.dsp_tags != ''"
    );
    assert_eq!(
        categories_query(&no_filters()).sql,
        "SELECT f.parent_folder, COUNT(*) FROM files f WHERE f.parent_folder IS NOT NULL \
         AND f.parent_folder != '' GROUP BY f.parent_folder ORDER BY f.parent_folder"
    );
    assert_eq!(
        folder_counts_query(&no_filters()).sql,
        "SELECT f.root_path, f.folder_path, COUNT(*) FROM files f \
         GROUP BY f.root_path, f.folder_path"
    );
    let mut f = no_filters();
    f.text = Some("rain".to_string());
    f.favorites_only = Some(true);
    assert_eq!(
        sound_types_query(&f).sql,
        "SELECT f.dsp_tags FROM files f JOIN files_fts ON files_fts.rowid = f.id \
         WHERE f.dsp_tags IS NOT NULL AND f.dsp_tags != '' AND files_fts MATCH ? \
         AND f.favorite = 1"
    );
    assert!(folder_counts_query(&f).sql.contains(" WHERE files_fts MATCH ? AND f.favorite = 1 "));
}

#[test]
fn every_placeholder_has_a_value() {
    for f in [no_filters(), all_filters()] {
        assert!(balanced(&search_query(&f)));
        assert!(balanced(&sound_types_query(&f)));
        assert!(balanced(&categories_query(&f)));
        assert!(balanced(&folder_counts_query(&f)));
    }
}

#[test]
fn contents_of_filters_stay_out_of_the_text() {
    let mut other = all_filters();
    other.text = Some("x' OR 1=1 --".to_string());
    other.root_path = Some("'; DROP TABLE files; --".to_string());
    other.categories = Some(vec!["?".to_string(), "'".to_string()]);
    other.sound_types = Some(vec!["%".to_string(), "')".to_string()]);
    assert_eq!(search_query(&other).sql, search_query(&all_filters()).sql);
    assert_eq!(categories_query(&other).sql, categories_query(&all_filters()).sql);
}

#[test]
fn queries_run_on_a_real_database() {
    let db = rusqlite::Connection::open_in_memory().unwrap();
    db.execute_batch(
        "CREATE TABLE files (id INTEGER PRIMARY KEY, path TEXT, root_path TEXT, filename TEXT,
            ext TEXT, parent_folder TEXT, folder_path TEXT, duration_secs REAL, description TEXT,
            tags TEXT, dsp_tags TEXT, favorite INTEGER);
         CREATE VIRTUAL TABLE files_fts USING fts5(filename, tags, content='files',
            content_rowid='id');
         INSERT INTO files VALUES (1, '/lib/fx/air/a.wav', '/lib', 'a.wav', 'wav', 'air', 'fx/air',
            2.0, NULL, 'big,whoosh', ',whoosh,bright,', 1);
         INSERT INTO files VALUES (2, '/lib/fx/air/b.wav', '/lib', 'b.wav', 'wav', 'air', 'fx/air',
            2.0, NULL, 'big', ',dark,', 1);
         INSERT INTO files_fts(rowid, filename, tags) SELECT id, filename, tags FROM files;",
    )
    .unwrap();
    let run = |q: Query<f64>| -> Vec<String> {
        let mut stmt = db.prepare(&q.sql).unwrap();
        let values: Vec<rusqlite::types::Value> = q
            .params
            .into_iter()
            .map(|v| match v {
                SqlValue::Text(t) => rusqlite::types::Value::Text(t),
                SqlValue::Seconds(s) => rusqlite::types::Value::Real(s),
                SqlValue::Integer(i) => rusqlite::types::Value::Integer(i),
            })
            .collect();
        let rows = stmt.query_map(rusqlite::params_from_iter(values), |r| {
            r.get::<_, rusqlite::types::Value>(0)
        });
        rows.unwrap().map(|v| format!("{:?}", v.unwrap())).collect()
    };
    let mut f = all_filters();
    f.offset = None;
    assert_eq!(run(search_query(&f)), vec!["Integer(1)"]);
    assert_eq!(run(sound_types_query(&f)), vec!["Text(\",whoosh,bright,\")"]);
    assert_eq!(run(categories_query(&f)), vec!["Text(\"air\")"]);
    assert_eq!(run(folder_counts_query(&f)), vec!["Text(\"/lib\")"]);
    assert_eq!(run(search_query(&no_filters())), vec!["Integer(1)", "Integer(2)"]);
}
