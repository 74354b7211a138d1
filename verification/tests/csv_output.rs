use pcli::model::{
    EnvironmentStatusReport, Folder, GeoLabel, ListOfFolders, ListOfGeoLabels, ListOfModels,
    ListOfVisualModelMatches, Model, ModelMetadata, ModelMetadataItem, ModelStatusRecord, Property,
    PropertyCollection, VisuallyMatchedModel,
};

const UUID_A: u128 = 0x82cb38ce_c3e4_4a07_b605_5177602a6000;
const UUID_A_TEXT: &str = "82cb38ce-c3e4-4a07-b605-5177602a6000";
const UUID_B: u128 = 0x95ac73f8_c086_4bec_a8f6_de6cea000001;
const UUID_B_TEXT: &str = "95ac73f8-c086-4bec-a8f6-de6cea000001";

fn item(name: &str, value: &str) -> ModelMetadataItem {
    ModelMetadataItem::new(1, name.to_string(), value.to_string())
}

fn model(uuid: u128, name: &str, metadata: Option<Vec<ModelMetadataItem>>) -> Model {
    Model {
        uuid,
        is_assembly: false,
        name: name.to_string(),
        folder_id: 3,
        file_type: "STEP".to_string(),
        units: "mm".to_string(),
        state: "finished".to_string(),
        metadata,
        ..Default::default()
    }
}

#[test]
fn folder_csv_with_header() {
    let folder = Folder::new(7, "Parts".to_string());
    assert_eq!(folder.to_csv(true).unwrap(), "ID,NAME\r\n7,Parts\r\n");
    assert_eq!(folder.to_csv(false).unwrap(), "7,Parts\r\n");
}

#[test]
fn folder_csv_quotes_special_fields() {
    let folder = Folder::new(1, "a,b".to_string());
    assert_eq!(folder.to_csv(false).unwrap(), "1,\"a,b\"\r\n");
    let folder = Folder::new(2, "say \"hi\"".to_string());
    assert_eq!(folder.to_csv(false).unwrap(), "2,\"say \"\"hi\"\"\"\r\n");
    let folder = Folder::new(3, "two\nlines".to_string());
    assert_eq!(folder.to_csv(false).unwrap(), "3,\"two\nlines\"\r\n");
}

#[test]
fn list_of_folders_csv() {
    let list = ListOfFolders {
        folders: vec![Folder::new(1, "A".to_string()), Folder::new(2, "B".to_string())],
    };
    assert_eq!(list.to_csv(true).unwrap(), "ID,NAME\r\n1,A\r\n2,B\r\n");
    let empty = ListOfFolders { folders: vec![] };
    assert_eq!(empty.to_csv(false).unwrap(), "");
}

#[test]
fn property_collection_csv() {
    let props = PropertyCollection {
        properties: vec![
            Property { id: 10, name: "color".to_string() },
            Property { id: 11, name: "size".to_string() },
        ],
    };
    assert_eq!(props.to_csv(true).unwrap(), "ID,NAME\r\n10,color\r\n11,size\r\n");
}

#[test]
fn model_metadata_csv() {
    let meta = ModelMetadata::new(vec![item("color", "red"), item("size", "")]);
    assert_eq!(meta.to_csv(true).unwrap(), "NAME,VALUE\r\ncolor,red\r\nsize,\r\n");
    let text = meta.to_enhanced_csv(&UUID_A, true).unwrap();
    let expected = format!(
        "MODEL_UUID,NAME,VALUE\r\n{u},color,red\r\n{u},size,\r\n",
        u = UUID_A_TEXT
    );
    assert_eq!(text, expected);
}

#[test]
fn model_csv_sorts_property_columns_and_takes_last_value() {
    let m = model(
        UUID_A,
        "bracket",
        Some(vec![item("size", "L"), item("color", "red"), item("size", "XL")]),
    );
    let expected = format!(
        "ID,NAME,FOLDER_ID,IS_ASSEMBLY,FILE_TYPE,UNITS,STATE,color,size\r\n{},bracket,3,false,STEP,mm,finished,red,XL\r\n",
        UUID_A_TEXT
    );
    assert_eq!(m.to_csv(true).unwrap(), expected);
}

#[test]
fn model_csv_without_metadata() {
    let m = model(UUID_A, "bracket", None);
    let expected = format!("{},bracket,3,false,STEP,mm,finished\r\n", UUID_A_TEXT);
    assert_eq!(m.to_csv(false).unwrap(), expected);
}

#[test]
fn list_of_models_csv_joins_property_columns() {
    let models = ListOfModels::new(vec![
        model(UUID_A, "a", Some(vec![item("weight", "2")])),
        model(UUID_B, "b", Some(vec![item("color", "blue")])),
    ]);
    let expected = format!(
        "ID,NAME,FOLDER_ID,IS_ASSEMBLY,FILE_TYPE,UNITS,STATE,color,weight\r\n{},a,3,false,STEP,mm,finished,,2\r\n{},b,3,false,STEP,mm,finished,blue,\r\n",
        UUID_A_TEXT, UUID_B_TEXT
    );
    assert_eq!(models.to_csv(true).unwrap(), expected);
}

#[test]
fn environment_status_csv() {
    let mut report = EnvironmentStatusReport::new();
    report.stats.push(ModelStatusRecord::new(
        4,
        "Parts".to_string(),
        "STEP".to_string(),
        "FINISHED".to_string(),
        12,
    ));
    assert_eq!(
        report.to_csv(true).unwrap(),
        "FOLDER_ID,FOLDER_NAME,FILE_TYPE,STATE,COUNT\r\n4,Parts,STEP,FINISHED,12\r\n"
    );
}

#[test]
fn geo_labels_csv() {
    let labels = ListOfGeoLabels::new(vec![GeoLabel {
        id: 5,
        name: "bolt".to_string(),
        geo_classifier_id: 9,
    }]);
    assert_eq!(labels.to_csv(true).unwrap(), "ID,NAME,CLASSIFIER_ID\r\n5,bolt,9\r\n");
}

#[test]
fn visual_matches_csv() {
    let list = ListOfVisualModelMatches::new(Box::new(vec![VisuallyMatchedModel {
        file_name: "a.step".to_string(),
        file_type: "STEP".to_string(),
        folder_id: 2,
        uuid: UUID_B,
        is_assembly: true,
        name: "frame".to_string(),
        units: "in".to_string(),
        state: "finished".to_string(),
    }]));
    let expected = format!(
        "ID,NAME,FOLDER_ID,IS_ASSEMBLY,FILE_TYPE,UNITS,STATE\r\n{},frame,2,true,STEP,in,finished\r\n",
        UUID_B_TEXT
    );
    assert_eq!(list.to_csv(true).unwrap(), expected);
}
