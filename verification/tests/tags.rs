use fxbrowser::facets::{get_duration_bounds, list_folder_tree, list_sound_types, DurationBounds};
use fxbrowser::tags::{file_tags, infer_tags_from_filename, insert_ordered, pack_labels};

fn owned(v: &[&str]) -> Vec<String> {
    v.iter().map(|s| s.to_string()).collect()
}

#[test]
fn name_tags_are_its_words() {
    assert_eq!(
        infer_tags_from_filename("Kick_Drum-01 (Loud) kick 2024 x9z"),
        owned(&["kick", "drum", "loud", "x9z"])
    );
    assert_eq!(infer_tags_from_filename(""), owned(&[]));
    assert_eq!(infer_tags_from_filename("ab 12 345"), owned(&[]));
}

#[test]
fn short_words_are_measured_in_bytes() {
    assert_eq!(infer_tags_from_filename("éé ab"), owned(&["éé"]));
    assert_eq!(infer_tags_from_filename("ÉTÉ"), owned(&["été"]));
}

#[test]
fn tags_of_a_file_are_ordered_and_distinct() {
    assert_eq!(
        file_tags("Whoosh_Big", Some(" Air; big ,WHOOSH,zap")),
        owned(&["air", "big", "whoosh", "zap"])
    );
    assert_eq!(file_tags("Whoosh_Big", None), owned(&["big", "whoosh"]));
    assert_eq!(file_tags("", Some("a,,b")), owned(&["", "a", "b"]));
    assert_eq!(file_tags("x", Some("")), owned(&[""]));
}

#[test]
fn ordered_lists_take_a_tag_once() {
    let mut tags = owned(&["b", "d"]);
    insert_ordered(&mut tags, "c".to_string());
    insert_ordered(&mut tags, "a".to_string());
    insert_ordered(&mut tags, "e".to_string());
    insert_ordered(&mut tags, "c".to_string());
    assert_eq!(tags, owned(&["a", "b", "c", "d", "e"]));
}

#[test]
fn the_order_of_insertion_does_not_matter() {
    let words = ["wind", "air", "été", "storm", "a", "air"];
    let mut forwards = Vec::new();
    let mut backwards = Vec::new();
    for w in words {
        insert_ordered(&mut forwards, w.to_string());
    }
    for w in words.iter().rev() {
        insert_ordered(&mut backwards, w.to_string());
    }
    assert_eq!(forwards, owned(&["a", "air", "storm", "wind", "été"]));
    assert_eq!(forwards, backwards);
}

#[test]
fn labels_are_packed_between_commas() {
    assert_eq!(pack_labels(&vec!["impact", "bright"]), Some(",impact,bright,".to_string()));
    assert_eq!(pack_labels(&vec!["dark"]), Some(",dark,".to_string()));
    assert_eq!(pack_labels(&Vec::new()), None);
}

#[test]
fn packed_text_shows_exactly_its_labels() {
    let text = pack_labels(&vec!["impact", "bright"]).unwrap();
    assert!(text.contains(",impact,"));
    assert!(text.contains(",bright,"));
    assert!(!text.contains(",brig,"));
    assert!(!text.contains(",dark,"));
}

#[test]
fn sound_types_are_counted_by_label() {
    let rows = owned(&[",impact,bright,", ",bright,", "", ",,", "tonal", ",impact,,bright,"]);
    let counts: Vec<(String, i64)> =
        list_sound_types(&rows).into_iter().map(|c| (c.name, c.count)).collect();
    assert_eq!(
        counts,
        vec![("bright".to_string(), 3), ("impact".to_string(), 2), ("tonal".to_string(), 1)]
    );
    assert!(list_sound_types(&Vec::new()).is_empty());
}

#[test]
fn packing_loses_no_label() {
    let rows: Vec<String> = [vec!["drone", "tonal", "dark"], vec!["tonal"]]
        .iter()
        .map(|l| pack_labels(l).unwrap())
        .collect();
    let counts: Vec<(String, i64)> =
        list_sound_types(&rows).into_iter().map(|c| (c.name, c.count)).collect();
    assert_eq!(
        counts,
        vec![("dark".to_string(), 1), ("drone".to_string(), 1), ("tonal".to_string(), 2)]
    );
}

#[test]
fn every_folder_is_listed_with_its_count() {
    let folder = |r: &str, f: &str| (r.to_string(), f.to_string());
    let count = |r: &str, f: &str, n: i64| (r.to_string(), f.to_string(), n);
    let tree = list_folder_tree(
        vec![folder("/a", ""), folder("/a", "x"), folder("/a", "x/y"), folder("/b", "x")],
        vec![count("/b", "x", 4), count("/a", "x/y", 2), count("/a", "", 7), count("/c", "z", 9)],
    );
    let rows: Vec<(&str, &str, i64)> =
        tree.iter().map(|e| (e.root_path.as_str(), e.folder_path.as_str(), e.count)).collect();
    assert_eq!(rows, vec![("/a", "", 7), ("/a", "x", 0), ("/a", "x/y", 2), ("/b", "x", 4)]);
}

#[test]
fn a_later_count_for_a_folder_replaces_the_first() {
    let tree = list_folder_tree(
        vec![("/a".to_string(), "x".to_string())],
        vec![
            ("/a".to_string(), "x".to_string(), 1),
            ("/a".to_string(), "x".to_string(), 5),
        ],
    );
    assert_eq!(tree[0].count, 5);
}

#[test]
fn duration_bounds_have_floors() {
    let bounds = |min: Option<f64>, max: Option<f64>| {
        let b: DurationBounds = get_duration_bounds(min.map(f64::to_bits), max.map(f64::to_bits));
        (f64::from_bits(b.min), f64::from_bits(b.max))
    };
    assert_eq!(bounds(None, None), (0.0, 60.0));
    assert_eq!(bounds(Some(0.25), Some(12.5)), (0.25, 12.5));
    assert_eq!(bounds(Some(-3.0), Some(0.5)), (0.0, 1.0));
    assert_eq!(bounds(Some(f64::NAN), Some(f64::NAN)), (0.0, 1.0));
}
