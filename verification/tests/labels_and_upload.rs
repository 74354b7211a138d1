use pcli::labels::{label_inference, FULL_SCORE};
use pcli::model::{
    ListOfMatchedMetadataItems, MatchedMetadataItem, Model, ModelMatch, ModelMetadata,
    ModelMetadataItem, ModelMetadataItemShort, Property, PropertyCollection,
};
use pcli::upload::{change_for, MetadataUpload, PropertyChange};

const UUID: u128 = 0x82cb38ce_c3e4_4a07_b605_5177602a6000;
const UUID_TEXT: &str = "82cb38ce-c3e4-4a07-b605-5177602a6000";

fn items(pairs: &[(&str, &str)]) -> Vec<ModelMetadataItem> {
    pairs.iter().map(|(n, v)| ModelMetadataItem::new(1, n.to_string(), v.to_string())).collect()
}

fn matched(folder_id: u32, score: u64, meta: Option<Vec<ModelMetadataItem>>) -> ModelMatch {
    let model = Model { uuid: 7, folder_id, metadata: meta, ..Default::default() };
    ModelMatch::new(model, score, None)
}

fn label_of(result: &ListOfMatchedMetadataItems, name: &str) -> Option<(String, u64)> {
    result.items.iter().find(|i| i.name == name).map(|i| (i.value.clone(), i.score))
}

#[test]
fn own_properties_keep_their_values() {
    let original = Some(ModelMetadata::new(items(&[("color", "red"), ("color", "blue")])));
    let matches = vec![matched(3, 0x3FEC_CCCC_CCCC_CCCD, Some(items(&[("color", "green"), ("size", "L")])))];
    let result = label_inference(UUID, &original, &matches, &vec![3], &None);
    assert_eq!(result.items.len(), 2);
    assert_eq!(label_of(&result, "color"), Some(("blue".to_string(), FULL_SCORE)));
    assert_eq!(label_of(&result, "size"), Some(("L".to_string(), 0x3FEC_CCCC_CCCC_CCCD)));
    assert!(result.items.iter().all(|i| i.uuid == UUID));
}

#[test]
fn best_match_wins_and_folders_and_keys_filter() {
    let matches = vec![
        matched(9, 0x3FF0_0000_0000_0000, Some(items(&[("kind", "bolt")]))),
        matched(3, 0x3FEE_0000_0000_0000, Some(items(&[("kind", "nut"), ("size", "M4")]))),
        matched(3, 0x3FE0_0000_0000_0000, Some(items(&[("kind", "washer"), ("color", "gray")]))),
    ];
    let result = label_inference(UUID, &None, &matches, &vec![3], &Some(vec!["kind".to_string(), "color".to_string()]));
    assert_eq!(result.items.len(), 2);
    assert_eq!(label_of(&result, "kind"), Some(("nut".to_string(), 0x3FEE_0000_0000_0000)));
    assert_eq!(label_of(&result, "color"), Some(("gray".to_string(), 0x3FE0_0000_0000_0000)));
    assert_eq!(label_of(&result, "size"), None);
}

#[test]
fn no_sources_give_no_labels() {
    let result = label_inference(UUID, &None, &vec![matched(3, 1, None)], &vec![3], &None);
    assert!(result.items.is_empty());
}

#[test]
fn inferred_labels_csv() {
    let list = ListOfMatchedMetadataItems::new(vec![MatchedMetadataItem::new(
        UUID,
        "color".to_string(),
        "red".to_string(),
        FULL_SCORE,
    )]);
    let text = list.to_csv_with_scores(true, &vec!["1".to_string()]).unwrap();
    assert_eq!(text, format!("MODEL_UUID,NAME,VALUE,MATCH_SCORE\r\n{},color,red,1\r\n", UUID_TEXT));
}

fn properties() -> PropertyCollection {
    PropertyCollection {
        properties: vec![
            Property { id: 1, name: "Color".to_string() },
            Property { id: 2, name: "Size".to_string() },
            Property { id: 3, name: "COLOR".to_string() },
        ],
    }
}

#[test]
fn property_names_compare_up_to_case() {
    let upload = MetadataUpload::new(&properties(), false);
    assert_eq!(upload.property_id("color"), Some(3));
    assert_eq!(upload.property_id("size"), Some(2));
    assert_eq!(upload.property_id("weight"), None);
}

#[test]
fn learned_property_is_found_again() {
    let mut upload = MetadataUpload::new(&properties(), false);
    upload.learn_property("Weight".to_string(), 40);
    assert_eq!(upload.property_id("Weight"), Some(40));
    assert_eq!(upload.property_id("WEIGHT"), Some(40));
}

#[test]
fn cleaning_clears_each_model_once() {
    let mut upload = MetadataUpload::new(&properties(), true);
    assert_eq!(upload.properties_to_clear(UUID), vec![1, 2, 3]);
    assert_eq!(upload.properties_to_clear(UUID), Vec::<u64>::new());
    assert_eq!(upload.properties_to_clear(5), vec![1, 2, 3]);
    let mut keep = MetadataUpload::new(&properties(), false);
    assert_eq!(keep.properties_to_clear(UUID), Vec::<u64>::new());
}

#[test]
fn empty_value_deletes_property() {
    let row = ModelMetadataItemShort { model_uuid: UUID, name: "Color".to_string(), value: String::new() };
    match change_for(&row, 3) {
        PropertyChange::Delete { model_uuid, property_id } => {
            assert_eq!(model_uuid, UUID);
            assert_eq!(property_id, 3);
        }
        _ => panic!("expected a delete"),
    }
    let row = ModelMetadataItemShort { model_uuid: UUID, name: "Color".to_string(), value: "red".to_string() };
    match change_for(&row, 3) {
        PropertyChange::Put { model_uuid, property_id, item } => {
            assert_eq!(model_uuid, UUID);
            assert_eq!(property_id, 3);
            assert_eq!(item.key_id, 3);
            assert_eq!(item.name, "Color");
            assert_eq!(item.value, "red");
            assert_eq!(item.model_uuid, UUID);
        }
        _ => panic!("expected a put"),
    }
}
