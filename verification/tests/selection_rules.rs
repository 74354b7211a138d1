use pcli::model::{Folder, ListOfFolders, ModelMetadata, ModelMetadataItem};
use pcli::selection::{file_extension, is_supported_file, match_counts, metadata_filter, offered_label, split_pair};

#[test]
fn extension_is_text_after_last_dot() {
    assert_eq!(file_extension("part.v2.STEP"), "STEP");
    assert_eq!(file_extension("README"), "");
    assert_eq!(file_extension("archive."), "");
}

#[test]
fn supported_files_by_extension() {
    assert!(is_supported_file("part.v2.STEP"));
    assert!(is_supported_file("bracket.sldprt"));
    assert!(is_supported_file("body.x_t"));
    assert!(!is_supported_file("notes.txt"));
    assert!(!is_supported_file("step"));
}

fn meta(items: &[(&str, &str)]) -> ModelMetadata {
    ModelMetadata::new(
        items
            .iter()
            .enumerate()
            .map(|(i, (n, v))| ModelMetadataItem::new(i as u64, n.to_string(), v.to_string()))
            .collect(),
    )
}

#[test]
fn offered_label_takes_last_value_unless_unclassified() {
    let m = meta(&[("class", "apple"), ("class", "pear")]);
    let label = offered_label(&m, "class").unwrap();
    assert_eq!((label.key_id, label.value.as_str()), (1, "pear"));
    assert!(offered_label(&meta(&[("class", "UnClassified")]), "class").is_none());
    assert!(offered_label(&meta(&[("kind", "apple")]), "class").is_none());
}

#[test]
fn exclusive_classification_uses_chosen_folders() {
    let existing = ListOfFolders {
        folders: vec![Folder::new(1, "A".to_string()), Folder::new(2, "B".to_string())],
    };
    let chosen = vec!["A".to_string()];
    assert!(match_counts(&existing, &chosen, true, 1));
    assert!(!match_counts(&existing, &chosen, true, 2));
    assert!(match_counts(&existing, &chosen, false, 2));
}

#[test]
fn key_value_pairs_split_at_only_equal_sign() {
    assert_eq!(split_pair("color=red"), Some(("color".to_string(), "red".to_string())));
    assert_eq!(split_pair("empty="), Some(("empty".to_string(), String::new())));
    assert_eq!(split_pair("a=b=c"), None);
    assert_eq!(split_pair("novalue"), None);
}

#[test]
fn metadata_filter_from_pairs() {
    let pairs = vec!["color=red".to_string(), "size=L".to_string(), "color=blue".to_string()];
    let filter = metadata_filter(&pairs).unwrap();
    assert_eq!(filter.len(), 2);
    assert_eq!(filter.get("color").unwrap(), "blue");
    let bad = vec!["ok=1".to_string(), "broken".to_string(), "x=y=z".to_string()];
    assert_eq!(metadata_filter(&bad).unwrap_err(), "broken");
}
