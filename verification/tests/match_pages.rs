use pcli::client::PageData;
use pcli::matching::{ClassificationTag, MatchCollector, MatchStep};
use pcli::model::{Folder, ListOfFolders, Model, ModelMatch, ModelMetadata, ModelMetadataItem, Property};
use pcli::service::{combine_metadata, needs_reprocess};
use pcli::selection::{label_decision, LabelDecision};

fn meta(items: &[(&str, &str)]) -> ModelMetadata {
    ModelMetadata::new(items.iter().map(|(n, v)| ModelMetadataItem::new(1, n.to_string(), v.to_string())).collect())
}

fn names(m: &Option<ModelMetadata>) -> Option<Vec<String>> {
    m.as_ref().map(|m| m.properties.iter().map(|p| format!("{}={}", p.name, p.value)).collect())
}

fn model(uuid: u128, name: &str, folder_id: u32) -> Model {
    Model { uuid, name: name.to_string(), folder_id, ..Default::default() }
}

#[test]
fn metadata_combines_in_every_case() {
    let both = combine_metadata(Some(meta(&[("a", "1")])), &Some(meta(&[("b", "2")])));
    assert_eq!(names(&both), Some(vec!["a=1".to_string(), "reference.b=2".to_string()]));
    let own = combine_metadata(Some(meta(&[("a", "1")])), &None);
    assert_eq!(names(&own), Some(vec!["a=1".to_string()]));
    let reference = combine_metadata(None, &Some(meta(&[("b", "2")])));
    assert_eq!(names(&reference), Some(vec!["reference.b=2".to_string()]));
    assert!(combine_metadata(None, &None).is_none());
}

fn page(total: u32, current: u32, last: u32) -> PageData {
    PageData { total, per_page: 50, current_page: current, last_page: last, start_index: 0, end_index: 0 }
}

#[test]
fn match_pages_keep_matches_and_tag_each_match() {
    let tag = ClassificationTag {
        property: Property { id: 9, name: "class".to_string() },
        name: "class".to_string(),
        value: "bolt".to_string(),
    };
    let mut c = MatchCollector::new(true, Some(meta(&[("r", "x")])), Some(tag));
    let (step, tags) = c.on_match_page(
        &page(2, 1, 2),
        vec![ModelMatch::new(model(11, "a", 1), 7, None), ModelMatch::new(model(12, "b", 1), 8, None)],
        vec![Some(meta(&[("k", "v")])), None],
    );
    assert_eq!(step, MatchStep::FetchPage(2));
    let tagged: Vec<(u128, u64, String, String)> =
        tags.iter().map(|t| (t.model_uuid, t.property_id, t.item.name.clone(), t.item.value.clone())).collect();
    assert_eq!(
        tagged,
        vec![(11, 9, "class".to_string(), "bolt".to_string()), (12, 9, "class".to_string(), "bolt".to_string())]
    );
    let (step, tags) = c.on_match_page(&page(0, 2, 2), vec![], vec![]);
    assert_eq!(step, MatchStep::Done);
    assert!(tags.is_empty());
    let list = c.finish();
    assert_eq!(list.inner.len(), 2);
    assert_eq!(
        list.inner[0].model.metadata.as_ref().map(|m| m.len()),
        Some(2)
    );
    assert_eq!(list.inner[1].model.metadata.as_ref().unwrap()[0].name, "reference.r");
    assert_eq!(list.inner[1].percentage, 8);
}

#[test]
fn match_pages_without_metadata_show_none() {
    let mut c = MatchCollector::new(false, None, None);
    let (_, tags) = c.on_match_page(&page(1, 1, 1), vec![ModelMatch::new(model(1, "a", 1), 0, None)], vec![None]);
    assert!(tags.is_empty());
    assert!(c.finish().inner[0].model.metadata.is_none());
}

#[test]
fn reprocess_set_of_status_report() {
    let mut a = model(1, "a", 1);
    a.state = "FAILED".to_string();
    let mut b = model(2, "b", 1);
    b.state = "finished".to_string();
    let mut c = model(3, "c", 1);
    c.state = "processing".to_string();
    c.is_assembly = true;
    let models = vec![a, b, c];
    let chosen = |fix: bool, ignore: bool| -> Vec<u128> {
        models.iter().filter(|m| needs_reprocess(m, fix, ignore)).map(|m| m.uuid).collect()
    };
    assert_eq!(chosen(true, false), vec![1, 3]);
    assert_eq!(chosen(true, true), vec![1]);
    assert!(chosen(false, false).is_empty());
}

#[test]
fn label_decision_picks_first_counting_offer() {
    let existing = ListOfFolders { folders: vec![Folder::new(1, "A".to_string()), Folder::new(2, "B".to_string())] };
    let chosen = vec!["A".to_string()];
    let matches = vec![
        ModelMatch::new(model(1, "x", 2), 0, None),
        ModelMatch::new(model(2, "y", 1), 0, None),
        ModelMatch::new(model(3, "z", 1), 0, None),
    ];
    let metas = vec![
        Some(meta(&[("class", "pear")])),
        Some(meta(&[("class", "Unclassified")])),
        Some(meta(&[("class", "apple")])),
    ];
    match label_decision(&matches, &metas, &existing, &chosen, true, "class") {
        LabelDecision::Assign(item) => assert_eq!(item.value, "apple"),
        _ => panic!("expected a label"),
    }
    match label_decision(&matches, &metas, &existing, &chosen, false, "class") {
        LabelDecision::Assign(item) => assert_eq!(item.value, "pear"),
        _ => panic!("expected a label"),
    }
    assert!(matches!(label_decision(&vec![], &vec![], &existing, &chosen, true, "class"), LabelDecision::Delete));
    let none = vec![None, None, None];
    assert!(matches!(label_decision(&matches, &none, &existing, &chosen, false, "class"), LabelDecision::Keep));
}
