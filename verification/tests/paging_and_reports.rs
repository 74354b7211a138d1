use pcli::cache::ModelCache;
use pcli::client::PageData;
use pcli::listing::{ModelListCollector, VisualMatchCollector};
use pcli::model::{
    Folder, ListOfFolders, Model, ModelMatch, ModelMetadata, ModelMetadataItem,
    SimpleDuplicatesMatchReport, VisualMatchItem, VisuallyMatchedModel,
};
use pcli::report::{ReportAction, SimpleReportGenerator};

const UUID_A: u128 = 0x82cb38ce_c3e4_4a07_b605_5177602a6000;
const UUID_B: u128 = 0x95ac73f8_c086_4bec_a8f6_de6cea000001;
const UUID_C: u128 = 0x00000000_0000_4000_8000_000000000abc;

fn page(total: u32, current_page: u32, last_page: u32) -> PageData {
    PageData { total, current_page, last_page, ..Default::default() }
}

fn model(uuid: u128, name: &str, folder_id: u32, state: &str) -> Model {
    Model {
        uuid,
        name: name.to_string(),
        folder_id,
        file_type: "step".to_string(),
        state: state.to_string(),
        ..Default::default()
    }
}

fn folders() -> ListOfFolders {
    ListOfFolders {
        folders: vec![Folder::new(3, "Parts".to_string()), Folder::new(4, "Tools".to_string())],
    }
}

fn matched(uuid: u128, name: &str, folder_id: u32) -> ModelMatch {
    ModelMatch::new(model(uuid, name, folder_id, "finished"), 0x3FEE_6666_6666_6666, None)
}

/// What the service answers for a model: the model, and its matches.
fn answer(uuid: u128) -> (Option<Model>, Option<Vec<ModelMatch>>) {
    if uuid == UUID_A {
        (Some(model(UUID_A, "bracket", 3, "finished")), Some(vec![matched(0x21, "bracket-2", 4)]))
    } else if uuid == UUID_B {
        (Some(model(UUID_B, "hinge", 3, "finished")), None)
    } else {
        (
            Some(model(UUID_C, "lever", 4, "finished")),
            Some(vec![matched(0x31, "lever-b", 3), matched(0x32, "lever-c", 4)]),
        )
    }
}

fn run_report(uuids: Vec<u128>) -> SimpleDuplicatesMatchReport {
    let mut g =
        SimpleReportGenerator::start(uuids, folders(), None, false, None, "acme".to_string())
            .unwrap();
    loop {
        match g.next_action() {
            ReportAction::FetchModel(u) => g.on_model(answer(u).0),
            ReportAction::MatchModel(u) => g.on_matches(answer(u).1),
            ReportAction::Done => break,
        }
    }
    g.finish()
}

/// Each entry of a report as plain values: key, name, folder and the UUIDs
/// of the duplicates.
fn summary(report: &SimpleDuplicatesMatchReport) -> Vec<(String, String, String, Vec<u128>)> {
    report
        .inner
        .entries()
        .iter()
        .map(|(k, item)| {
            (
                k.clone(),
                item.name.clone(),
                item.folder_name.clone(),
                item.matches.iter().map(|m| m.model.uuid).collect(),
            )
        })
        .collect()
}

#[test]
fn report_over_models_is_union_of_single_reports() {
    let all = summary(&run_report(vec![UUID_A, UUID_B, UUID_C]));
    let mut union = summary(&run_report(vec![UUID_A]));
    union.extend(summary(&run_report(vec![UUID_B])));
    union.extend(summary(&run_report(vec![UUID_C])));
    assert_eq!(all, union);
    assert_eq!(all.len(), 2);
    assert_eq!(all[1].3, vec![0x31, 0x32]);
}

#[test]
fn failed_model_is_skipped_in_report() {
    assert_eq!(run_report(vec![UUID_B]).inner.len(), 0);
    let with_failure = summary(&run_report(vec![UUID_A, UUID_B, UUID_C]));
    let without = summary(&run_report(vec![UUID_A, UUID_C]));
    assert_eq!(with_failure, without);
}

#[test]
fn model_listing_keeps_pages_that_report_models() {
    let mut c = ModelListCollector::new();
    let next = c.on_page(&page(3, 1, 3), vec![model(1, "a", 3, "finished"), model(2, "b", 3, "finished")]);
    assert_eq!(next, Some(2));
    let next = c.on_page(&page(0, 2, 3), vec![model(9, "x", 3, "finished")]);
    assert_eq!(next, Some(3));
    let next = c.on_page(&page(3, 3, 3), vec![model(3, "c", 3, "finished")]);
    assert_eq!(next, None);
    let list = c.finish();
    let uuids: Vec<u128> = list.models.iter().map(|m| m.uuid).collect();
    assert_eq!(uuids, vec![1, 2, 3]);
}

fn visual_item(uuid: u128) -> VisualMatchItem {
    VisualMatchItem { model: VisuallyMatchedModel { uuid, ..Default::default() } }
}

#[test]
fn visual_matches_gathered_then_trimmed() {
    let mut c = VisualMatchCollector::new();
    let first: Vec<VisualMatchItem> = (1..=6u128).map(visual_item).collect();
    assert_eq!(c.on_page(&page(13, 1, 2), first), Some(2));
    let mut second: Vec<VisualMatchItem> = (7..=12u128).map(visual_item).collect();
    second.insert(2, visual_item(UUID_A));
    assert_eq!(c.on_page(&page(13, 2, 2), second), None);
    let list = c.finish(UUID_A);
    let uuids: Vec<u128> = list.models.iter().map(|m| m.uuid).collect();
    assert_eq!(uuids, (1..=10u128).collect::<Vec<u128>>());

    let mut empty = VisualMatchCollector::new();
    assert_eq!(empty.on_page(&page(0, 1, 1), vec![visual_item(5)]), None);
    assert_eq!(empty.finish(UUID_A).models.len(), 0);
}

#[test]
fn cache_answers_only_when_asked_and_holding() {
    let mut cache = ModelCache::new();
    assert!(cache.cached(UUID_A, true).is_none());
    let meta = ModelMetadata { properties: vec![ModelMetadataItem::new(1, "k".to_string(), "v".to_string())] };
    let read = cache.remember(model(UUID_A, "bracket", 3, "finished"), Some(Some(meta)));
    assert_eq!(read.metadata.as_ref().map(|m| m.len()), Some(1));
    let hit = cache.cached(UUID_A, true).expect("held after reading");
    assert_eq!(hit.name, "bracket");
    assert_eq!(hit.metadata.as_ref().map(|m| m[0].value.clone()), Some("v".to_string()));
    assert!(cache.cached(UUID_A, false).is_none());

    let plain = cache.remember(model(UUID_B, "hinge", 3, "finished"), None);
    assert!(plain.metadata.is_none());
    let none_read = cache.remember(model(UUID_A, "bracket", 3, "finished"), Some(None));
    assert!(none_read.metadata.is_none());
    assert!(cache.cached(UUID_A, true).unwrap().metadata.is_none());
}
