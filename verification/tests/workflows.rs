use pcli::folders::validate_folders;
use pcli::model::{Folder, ListOfFolders, Model, ModelMatch, ModelMetadata, ModelMetadataItem};
use pcli::report::{ApiError, ReportAction, SimpleReportGenerator};
use pcli::service::{
    combine_metadata, folder_ids, folders_to_delete, needs_reprocess, tenant_stats,
    trim_visual_matches, with_metadata, ImageSearchCollector,
};
use pcli::model::VisuallyMatchedModel;

const UUID_A: u128 = 0x82cb38ce_c3e4_4a07_b605_5177602a6000;
const UUID_A_TEXT: &str = "82cb38ce-c3e4-4a07-b605-5177602a6000";
const UUID_B: u128 = 0x95ac73f8_c086_4bec_a8f6_de6cea000001;
const UUID_X: u128 = 0x00000000_0000_4000_8000_000000000abc;
const UUID_X_TEXT: &str = "00000000-0000-4000-8000-000000000abc";

fn folders() -> ListOfFolders {
    ListOfFolders {
        folders: vec![
            Folder::new(3, "Parts".to_string()),
            Folder::new(4, "Tools".to_string()),
            Folder::new(5, "Parts".to_string()),
        ],
    }
}

fn model(uuid: u128, name: &str, folder_id: u32, file_type: &str, state: &str) -> Model {
    Model {
        uuid,
        name: name.to_string(),
        folder_id,
        file_type: file_type.to_string(),
        state: state.to_string(),
        ..Default::default()
    }
}

#[test]
fn validate_folders_reports_missing_names() {
    let names = vec!["Parts".to_string(), "Nope".to_string(), "Gone".to_string()];
    match validate_folders(&folders(), &names) {
        Err(ApiError::FolderNotFound(text)) => assert_eq!(text, "Nope, Gone"),
        other => panic!("unexpected {:?}", other.map(|l| l.folders.len())),
    }
}

#[test]
fn validate_folders_selects_named_folders() {
    let names = vec!["Tools".to_string(), "Parts".to_string()];
    let list = validate_folders(&folders(), &names).unwrap();
    let ids: Vec<u32> = list.folders.iter().map(|f| f.id).collect();
    assert_eq!(ids, vec![4, 3]);
    let all = validate_folders(&folders(), &vec![]).unwrap();
    assert_eq!(all.folders.len(), 3);
}

#[test]
fn folder_lookup_by_id_and_name() {
    let list = folders();
    assert_eq!(list.get_folder_by_id(&5).unwrap().name, "Parts");
    assert_eq!(list.get_folder_by_name("Parts").unwrap().id, 3);
    assert!(list.get_folder_by_id(&9).is_none());
    assert!(list.get_folder_by_name("parts").is_none());
}

#[test]
fn tenant_stats_counts_each_model_once() {
    let models = vec![
        model(1, "a", 3, "step", "finished"),
        model(2, "b", 3, "STEP", "FINISHED"),
        model(3, "c", 4, "stl", "failed"),
        model(4, "d", 3, "step", "failed"),
    ];
    let report = tenant_stats(&models, &folders());
    let rows: Vec<(u32, String, String, String, u64)> = report
        .stats
        .iter()
        .map(|r| (r.folder_id, r.folder_name.clone(), r.file_type.clone(), r.state.clone(), r.count))
        .collect();
    assert_eq!(
        rows,
        vec![
            (3, "Parts".to_string(), "STEP".to_string(), "FINISHED".to_string(), 2),
            (4, "Tools".to_string(), "STL".to_string(), "FAILED".to_string(), 1),
            (3, "Parts".to_string(), "STEP".to_string(), "FAILED".to_string(), 1),
        ]
    );
    let total: u64 = report.stats.iter().map(|r| r.count).sum();
    assert_eq!(total, models.len() as u64);
}

#[test]
fn tenant_stats_names_folder_by_last_entry() {
    let list = ListOfFolders {
        folders: vec![Folder::new(3, "Old".to_string()), Folder::new(3, "New".to_string())],
    };
    let report = tenant_stats(&vec![model(1, "a", 3, "step", "finished")], &list);
    assert_eq!(report.stats[0].folder_name, "New");
}

#[test]
fn reprocess_only_unfinished_models_when_fixing() {
    let failed = model(1, "a", 3, "step", "FAILED");
    let done = model(1, "a", 3, "step", "finished");
    let no3d = model(1, "a", 3, "step", "No 3D Data");
    assert!(needs_reprocess(&failed, true, false));
    assert!(!needs_reprocess(&failed, false, false));
    assert!(!needs_reprocess(&done, true, false));
    assert!(!needs_reprocess(&no3d, true, false));
    let mut assembly = failed.clone();
    assembly.is_assembly = true;
    assert!(!needs_reprocess(&assembly, true, true));
    assert!(needs_reprocess(&assembly, true, false));
}

#[test]
fn delete_folder_needs_a_found_folder() {
    let names = vec!["x".to_string(), "y".to_string()];
    match folders_to_delete(&names, &ListOfFolders { folders: vec![] }) {
        Err(ApiError::FolderNotFound(text)) => assert_eq!(text, "x,y"),
        other => panic!("unexpected {:?}", other),
    }
    let found = ListOfFolders {
        folders: vec![Folder::new(8, "x".to_string()), Folder::new(8, "x".to_string())],
    };
    assert_eq!(folders_to_delete(&names, &found).unwrap(), vec![8]);
    assert_eq!(folder_ids(&folders()), vec![3, 4, 5]);
}

fn meta(items: &[(&str, &str)]) -> ModelMetadata {
    ModelMetadata::new(
        items
            .iter()
            .map(|(n, v)| ModelMetadataItem::new(1, n.to_string(), v.to_string()))
            .collect(),
    )
}

#[test]
fn combined_metadata_prefixes_reference_properties() {
    let combined = combine_metadata(Some(meta(&[("color", "red")])), &Some(meta(&[("size", "L")])))
        .unwrap();
    let pairs: Vec<(String, String)> =
        combined.properties.iter().map(|p| (p.name.clone(), p.value.clone())).collect();
    assert_eq!(
        pairs,
        vec![
            ("color".to_string(), "red".to_string()),
            ("reference.size".to_string(), "L".to_string()),
        ]
    );
    assert!(combine_metadata(None, &None).is_none());
}

#[test]
fn model_takes_metadata_properties() {
    let m = with_metadata(model(1, "a", 3, "step", "finished"), Some(meta(&[("k", "v")])));
    assert_eq!(m.metadata.unwrap()[0].value, "v");
    let m = with_metadata(m_with_meta(), None);
    assert!(m.metadata.is_none());
}

fn m_with_meta() -> Model {
    let mut m = model(1, "a", 3, "step", "finished");
    m.metadata = Some(vec![ModelMetadataItem::new(1, "k".to_string(), "v".to_string())]);
    m
}

fn visual(uuid: u128) -> VisuallyMatchedModel {
    VisuallyMatchedModel { uuid, ..Default::default() }
}

#[test]
fn visual_matches_drop_reference_and_keep_ten() {
    let mut list: Vec<VisuallyMatchedModel> = (1..=12u128).map(visual).collect();
    list.insert(3, visual(UUID_A));
    let trimmed = trim_visual_matches(list, UUID_A);
    let uuids: Vec<u128> = trimmed.iter().map(|m| m.uuid).collect();
    assert_eq!(uuids, (1..=10u128).collect::<Vec<u128>>());
    let short = trim_visual_matches(vec![visual(7)], UUID_A);
    assert_eq!(short.len(), 1);
}

#[test]
fn image_search_stops_at_limit_or_short_page() {
    let mut c = ImageSearchCollector::new(3, 2);
    assert_eq!(c.page(), 1);
    let more = c.add_page(vec![model(1, "a", 3, "s", "f"), model(2, "b", 3, "s", "f")]);
    assert!(more);
    assert_eq!(c.page(), 2);
    let more = c.add_page(vec![model(3, "c", 3, "s", "f"), model(4, "d", 3, "s", "f")]);
    assert!(!more);
    let models = c.finish();
    let uuids: Vec<u128> = models.iter().map(|m| m.uuid).collect();
    assert_eq!(uuids, vec![1, 2, 3]);

    let mut c = ImageSearchCollector::new(10, 5);
    assert!(!c.add_page(vec![model(1, "a", 3, "s", "f")]));
    assert_eq!(c.finish().len(), 1);
}

fn matched(uuid: u128, name: &str, folder_id: u32) -> ModelMatch {
    ModelMatch::new(model(uuid, name, folder_id, "step", "finished"), 0x3FEE_6666_6666_6666, None)
}

#[test]
fn simple_report_keeps_distinct_candidates() {
    let mut g = SimpleReportGenerator::start(
        vec![UUID_A, UUID_B],
        folders(),
        None,
        false,
        None,
        "acme".to_string(),
    )
    .unwrap();
    assert!(matches!(g.next_action(), ReportAction::FetchModel(u) if u == UUID_A));
    g.on_model(Some(model(UUID_A, "bracket", 3, "step", "finished")));
    assert!(matches!(g.next_action(), ReportAction::MatchModel(u) if u == UUID_A));
    g.on_matches(Some(vec![
        matched(UUID_X, "bracket-2", 4),
        matched(0x11, "bracket", 3),
        matched(0x12, "bracket-2", 3),
    ]));
    assert!(matches!(g.next_action(), ReportAction::FetchModel(u) if u == UUID_B));
    g.on_model(None);
    assert!(matches!(g.next_action(), ReportAction::Done));
    let report = g.finish();
    let entries = report.inner.entries();
    assert_eq!(entries.len(), 1);
    let (key, item) = &entries[0];
    assert_eq!(key, UUID_A_TEXT);
    assert_eq!(item.uuid, UUID_A_TEXT);
    assert_eq!(item.name, "bracket");
    assert_eq!(item.folder_name, "Parts");
    assert_eq!(item.matches.len(), 1);
    let m = &item.matches[0];
    assert_eq!(m.model.uuid, UUID_X);
    assert_eq!(m.model.folder_name.as_deref(), Some("Tools"));
    assert_eq!(
        m.comparison_url.as_deref(),
        Some(format!(
            "https://acme.physna.com/app/compare?modelAId={}&modelBId={}",
            UUID_A_TEXT, UUID_X_TEXT
        ))
        .as_deref()
    );
}

#[test]
fn simple_report_skips_unfinished_models() {
    let mut g =
        SimpleReportGenerator::start(vec![UUID_A], folders(), None, false, None, "t".to_string())
            .unwrap();
    g.on_model(Some(model(UUID_A, "a", 3, "step", "processing")));
    assert!(matches!(g.next_action(), ReportAction::Done));
    assert_eq!(g.finish().inner.len(), 0);
}

#[test]
fn simple_report_rejects_unknown_folder() {
    let r = SimpleReportGenerator::start(
        vec![UUID_A],
        folders(),
        Some(vec!["Missing".to_string()]),
        true,
        None,
        "t".to_string(),
    );
    match r {
        Err(ApiError::FolderNotFound(text)) => assert_eq!(text, "Missing"),
        _ => panic!("expected a missing folder"),
    }
}
