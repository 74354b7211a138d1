use pcli::cache::ModelCache;
use pcli::graph::{assembly_graph, ModelMatchReport};
use pcli::model::{FlatBom, Model, ModelAssemblyTree, SimpleDuplicatesMatchReport};

const ROOT: u128 = 0x82cb38ce_c3e4_4a07_b605_5177602a6000;
const ROOT_TEXT: &str = "82cb38ce-c3e4-4a07-b605-5177602a6000";
const WHEEL: u128 = 0x00000000_0000_4000_8000_000000000001;
const WHEEL_TEXT: &str = "00000000-0000-4000-8000-000000000001";
const AXLE: u128 = 0x00000000_0000_4000_8000_000000000002;
const AXLE_TEXT: &str = "00000000-0000-4000-8000-000000000002";

fn model(uuid: u128, name: &str) -> Model {
    Model { uuid, name: name.to_string(), ..Default::default() }
}

fn leaf(uuid: u128, name: &str) -> ModelAssemblyTree {
    ModelAssemblyTree::new(model(uuid, name), None)
}

/// cart -> [wheel, axle -> [wheel]]
fn cart() -> ModelAssemblyTree {
    ModelAssemblyTree::new(
        model(ROOT, "cart"),
        Some(vec![
            leaf(WHEEL, "wheel"),
            ModelAssemblyTree::new(model(AXLE, "axle"), Some(vec![leaf(WHEEL, "wheel")])),
        ]),
    )
}

#[test]
fn graph_nodes_follow_preorder_and_edges_link_parents() {
    let (graph, dictionary) = assembly_graph(&vec![cart()]);
    assert_eq!(graph.nodes, vec!["cart", "wheel", "axle", "wheel"]);
    assert_eq!(graph.edges, vec![(0, 1), (0, 2), (2, 3)]);
    for (a, b) in &graph.edges {
        assert!(a < b && *b < graph.nodes.len());
    }
    assert_eq!(dictionary.len(), 3);
    let wheel = &dictionary[&WHEEL];
    assert_eq!((wheel.name.as_str(), wheel.node, wheel.uuid), ("wheel", 3, WHEEL));
    assert_eq!(dictionary[&ROOT].node, 0);
    assert_eq!(dictionary[&AXLE].node, 2);
}

#[test]
fn graph_of_several_roots_has_no_edge_between_them() {
    let (graph, _) = assembly_graph(&vec![leaf(WHEEL, "wheel"), leaf(AXLE, "axle")]);
    assert_eq!(graph.nodes, vec!["wheel", "axle"]);
    assert!(graph.edges.is_empty());
}

#[test]
fn match_report_carries_graph_and_duplicates() {
    let report = ModelMatchReport::new(SimpleDuplicatesMatchReport::new(), &vec![cart()]);
    assert_eq!(report.graph.nodes.len(), 4);
    assert_eq!(report.dictionary.len(), 3);
    assert_eq!(report.duplicates.inner.len(), 0);
}

#[test]
fn flat_bom_keys_models_by_uuid_text() {
    let bom = FlatBom::from_tree(&cart());
    let mut keys: Vec<String> = bom.inner.entries().iter().map(|(k, _)| k.clone()).collect();
    keys.sort();
    let mut expected = vec![ROOT_TEXT.to_string(), WHEEL_TEXT.to_string(), AXLE_TEXT.to_string()];
    expected.sort();
    assert_eq!(keys, expected);
    assert_eq!(bom.inner.get(AXLE_TEXT).unwrap().name, "axle");
    let text = bom.to_csv(true).unwrap();
    assert!(text.starts_with("UUID,NAME\r\n"));
    assert!(text.contains(&format!("{},cart\r\n", ROOT_TEXT)));
}

#[test]
fn flat_bom_extend_prefers_other() {
    let mut bom = FlatBom::from_tree(&leaf(WHEEL, "wheel"));
    let other = FlatBom::from_tree(&ModelAssemblyTree::new(
        model(AXLE, "axle"),
        Some(vec![leaf(WHEEL, "wheel v2")]),
    ));
    bom.extend(&other);
    assert_eq!(bom.inner.len(), 2);
    assert_eq!(bom.inner.get(WHEEL_TEXT).unwrap().name, "wheel v2");
    let mut uuids = bom.model_uuids();
    uuids.sort();
    assert_eq!(uuids, vec![WHEEL, AXLE]);
    let mut empty = FlatBom::empty();
    empty.extend(&bom);
    assert_eq!(empty.inner.len(), 2);
}

#[test]
fn cache_returns_what_was_stored() {
    let mut cache = ModelCache::new();
    assert!(cache.get(ROOT).is_none());
    cache.insert(model(ROOT, "cart"));
    cache.insert(model(ROOT, "cart v2"));
    assert_eq!(cache.get(ROOT).unwrap().name, "cart v2");
    assert!(cache.get(WHEEL).is_none());
}

#[test]
fn tree_node_label() {
    assert_eq!(leaf(ROOT, "cart").label(), format!("cart:[{}]", ROOT_TEXT));
}
