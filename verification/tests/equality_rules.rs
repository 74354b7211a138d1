use pcli::model::{Folder, GeoMatch, Model, ModelMatch};

fn model(uuid: u128, name: &str) -> Model {
    Model { uuid, name: name.to_string(), ..Default::default() }
}

#[test]
fn folders_are_equal_by_name() {
    assert!(Folder::new(1, "A".to_string()) == Folder::new(2, "A".to_string()));
    assert!(Folder::new(1, "A".to_string()) != Folder::new(1, "B".to_string()));
}

#[test]
fn folders_are_ordered_by_name() {
    let mut folders = vec![
        Folder::new(1, "b".to_string()),
        Folder::new(2, "a".to_string()),
        Folder::new(3, "C".to_string()),
    ];
    folders.sort_by(|x, y| x.partial_cmp(y).unwrap());
    let names: Vec<&str> = folders.iter().map(|f| f.name.as_str()).collect();
    assert_eq!(names, vec!["C", "a", "b"]);
    assert!(Folder::new(9, "a".to_string()) < Folder::new(0, "b".to_string()));
}

#[test]
fn matches_are_equal_by_model_name() {
    let a = ModelMatch::new(model(1, "bolt"), 1, None);
    let b = ModelMatch::new(model(2, "bolt"), 2, Some("x".to_string()));
    let c = ModelMatch::new(model(1, "nut"), 1, None);
    assert!(a == b);
    assert!(a != c);
    assert!(GeoMatch::new(model(1, "bolt"), 0, 1) == GeoMatch::new(model(5, "bolt"), 9, 2));
}
