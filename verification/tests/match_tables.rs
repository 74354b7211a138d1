use pcli::model::{
    GeoMatch, ListOfGeoClassifierPredictions, ListOfModelMatches, Model, ModelMatch,
    ModelMatchReportItem, ModelMetadataItem, SimpleDuplicatesMatchReport,
};
use pcli::report::{lookup_property, passes_filter};
use pcli::text_map::TextMap;

const UUID_A: u128 = 0x82cb38ce_c3e4_4a07_b605_5177602a6000;
const UUID_A_TEXT: &str = "82cb38ce-c3e4-4a07-b605-5177602a6000";
const UUID_B: u128 = 0x95ac73f8_c086_4bec_a8f6_de6cea000001;
const UUID_B_TEXT: &str = "95ac73f8-c086-4bec-a8f6-de6cea000001";

fn item(name: &str, value: &str) -> ModelMetadataItem {
    ModelMetadataItem::new(1, name.to_string(), value.to_string())
}

fn model(uuid: u128, name: &str, metadata: Option<Vec<ModelMetadataItem>>) -> Model {
    Model {
        uuid,
        name: name.to_string(),
        folder_id: 3,
        file_type: "STEP".to_string(),
        units: "mm".to_string(),
        state: "finished".to_string(),
        metadata,
        ..Default::default()
    }
}

#[test]
fn model_matches_csv() {
    let list = ListOfModelMatches::new(Box::new(vec![
        ModelMatch::new(model(UUID_A, "a", Some(vec![item("size", "L")])), 0, None),
        ModelMatch::new(model(UUID_B, "b", None), 0, None),
    ]));
    let text = list
        .to_csv_with_scores(true, &vec!["0.9900".to_string(), "0.9500".to_string()])
        .unwrap();
    let expected = format!(
        "MATCH_PERCENTAGE,ID,NAME,FOLDER_ID,IS_ASSEMBLY,FILE_TYPE,UNITS,STATE,size\r\n\
         0.9900,{},a,3,false,STEP,mm,finished,L\r\n\
         0.9500,{},b,3,false,STEP,mm,finished,\r\n",
        UUID_A_TEXT, UUID_B_TEXT
    );
    assert_eq!(text, expected);
}

#[test]
fn duplicates_report_csv() {
    let mut report = SimpleDuplicatesMatchReport::new();
    let mut matched = model(UUID_B, "b", Some(vec![item("color", "red")]));
    matched.folder_name = Some("Tools".to_string());
    report.inner.insert(
        UUID_A_TEXT.to_string(),
        ModelMatchReportItem {
            uuid: UUID_A_TEXT.to_string(),
            name: "a".to_string(),
            folder_name: "Parts".to_string(),
            matches: vec![ModelMatch::new(matched, 0, Some("https://x".to_string()))],
        },
    );
    let text = report.to_csv_with_scores(true, &vec![vec!["0.9800".to_string()]]).unwrap();
    let expected = format!(
        "MODEL_NAME,MATCHING_MODEL_NAME,MATCH,SOURCE_UUID,MATCHING_UUID,SOURCE_FOLDER_NAME,MATCHING_FOLDER_NAME,COMPARISON_URL,color\r\n\
         a,b,0.9800,{},{},Parts,Tools,https://x,red\r\n",
        UUID_A_TEXT, UUID_B_TEXT
    );
    assert_eq!(text, expected);
}

#[test]
fn predictions_csv() {
    let list = ListOfGeoClassifierPredictions::new(vec![GeoMatch::new(
        model(UUID_A, "bolt", None),
        0,
        2,
    )]);
    let text = list.to_csv_with_scores(true, &vec!["0.75".to_string()]).unwrap();
    assert_eq!(
        text,
        format!("ID,NAME,CONFIDENCE,IS_ASSEMBLY,FOLDER\r\n{},bolt,0.75,false,3\r\n", UUID_A_TEXT)
    );
}

#[test]
fn metadata_as_properties_takes_last_value() {
    let m = model(UUID_A, "a", Some(vec![item("k", "1"), item("j", "2"), item("k", "3")]));
    let props = m.get_metadata_as_properties().unwrap();
    assert_eq!(props.len(), 2);
    assert_eq!(props.get("k").unwrap(), "3");
    assert_eq!(props.get("j").unwrap(), "2");
    assert!(model(UUID_A, "a", None).get_metadata_as_properties().is_none());
}

#[test]
fn metadata_filter_needs_every_value() {
    let m = model(UUID_A, "a", Some(vec![item("color", "red"), item("size", "L")]));
    let mut filter = TextMap::new();
    filter.insert("color".to_string(), "red".to_string());
    assert!(passes_filter(&m, &Some(filter.clone())));
    filter.insert("size".to_string(), "M".to_string());
    assert!(!passes_filter(&m, &Some(filter)));
    assert!(passes_filter(&m, &None));
    let mut processing = m.clone();
    processing.state = "processing".to_string();
    assert!(!passes_filter(&processing, &None));
    assert_eq!(lookup_property(&m.metadata.clone().unwrap(), "size"), Some("L".to_string()));
    assert_eq!(lookup_property(&m.metadata.unwrap(), "weight"), None);
}
