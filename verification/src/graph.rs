//! Assembly graphs: a node for each model of the assembly trees, taken in
//! pre-order and numbered from zero, an edge from each parent's node to each
//! of its children's nodes, and a dictionary from a model's UUID to its name
//! and node (the last node of a model met more than once).

use vstd::prelude::*;
use std::collections::HashMap;
use crate::bom::{preorder, preorder_all};
use crate::model::{ModelAssemblyTree, ModelView, PartNodeDictionaryItem, SimpleDuplicatesMatchReport};

verus! {

broadcast use vstd::std_specs::hash::group_hash_axioms;

/// The nodes and edges of an assembly graph. Node `i` is named after the
/// `i`-th model in pre-order; an edge goes from a parent node to a child node.
pub struct AssemblyGraph {
    pub nodes: Vec<String>,
    pub edges: Vec<(usize, usize)>,
}

/// The report of duplicates within assemblies: the duplicates of each part,
/// the dictionary of the parts and the graph of the assemblies.
pub struct ModelMatchReport {
    pub duplicates: SimpleDuplicatesMatchReport,
    pub dictionary: HashMap<u128, PartNodeDictionaryItem>,
    pub graph: AssemblyGraph,
}

/// The names of models.
pub open spec fn node_names(models: Seq<ModelView>) -> Seq<Seq<char>> {
    models.map_values(|m: ModelView| m.name)
}

/// The edges inside a tree whose root is node `at`: to each child's root,
/// then the edges inside that child.
pub open spec fn tree_edges(t: ModelAssemblyTree, at: int) -> Seq<(int, int)>
    decreases t, 1nat,
{
    match t.children {
        Some(cs) => forest_edges(cs@, at + 1, Some(at)),
        None => Seq::empty(),
    }
}

/// The edges of trees laid out one after the other from node `at`, each
/// root linked from `parent` when there is one.
pub open spec fn forest_edges(cs: Seq<ModelAssemblyTree>, at: int, parent: Option<int>) -> Seq<
    (int, int),
>
    decreases cs, 0nat,
{
    if cs.len() == 0 {
        Seq::empty()
    } else {
        let start = at + preorder_all(cs.drop_last()).len();
        forest_edges(cs.drop_last(), at, parent) + match parent {
            Some(p) => seq![(p, start)],
            None => Seq::empty(),
        } + tree_edges(cs.last(), start)
    }
}

/// A dictionary entry as plain values: name, node and UUID.
pub open spec fn entry_view(d: PartNodeDictionaryItem) -> (Seq<char>, int, u128) {
    (d.name@, d.node as int, d.uuid)
}

/// A dictionary as plain values.
pub open spec fn dictionary_view(m: Map<u128, PartNodeDictionaryItem>) -> Map<
    u128,
    (Seq<char>, int, u128),
> {
    m.map_values(|d: PartNodeDictionaryItem| entry_view(d))
}

/// The dictionary after entering models numbered from node `at`: each
/// model's UUID gets its name, node and UUID, later entries replacing
/// earlier ones.
pub open spec fn indexed(
    start: Map<u128, (Seq<char>, int, u128)>,
    models: Seq<ModelView>,
    at: int,
) -> Map<u128, (Seq<char>, int, u128)>
    decreases models.len(),
{
    if models.len() == 0 {
        start
    } else {
        indexed(start, models.drop_last(), at).insert(
            models.last().uuid,
            (models.last().name, at + models.len() - 1, models.last().uuid),
        )
    }
}

/// Edges as plain values.
pub open spec fn edges_view(edges: Seq<(usize, usize)>) -> Seq<(int, int)> {
    edges.map_values(|e: (usize, usize)| (e.0 as int, e.1 as int))
}

/// Entering models in two runs is entering them at once.
pub proof fn lemma_indexed_append(
    start: Map<u128, (Seq<char>, int, u128)>,
    a: Seq<ModelView>,
    b: Seq<ModelView>,
    at: int,
)
    ensures
        indexed(start, a + b, at) == indexed(indexed(start, a, at), b, at + a.len()),
    decreases b.len(),
{
    if b.len() == 0 {
        assert(a + b =~= a);
    } else {
        lemma_indexed_append(start, a, b.drop_last(), at);
        assert((a + b).drop_last() =~= a + b.drop_last());
    }
}

/// A tree has at least its root.
pub proof fn lemma_preorder_nonempty(t: ModelAssemblyTree)
    ensures
        preorder(t).len() >= 1,
{
    assert(preorder(t)[0] == t.model@);
}

/// The edges inside a tree go from an earlier to a later node of the tree.
pub proof fn lemma_tree_edges_forward(t: ModelAssemblyTree, at: int)
    ensures
        forall|i: int|
            0 <= i < tree_edges(t, at).len() ==> at <= (#[trigger] tree_edges(t, at)[i]).0
                < tree_edges(t, at)[i].1 < at + preorder(t).len(),
    decreases t, 1nat,
{
    match t.children {
        Some(cs) => {
            lemma_forest_edges_forward(cs@, at + 1, Some(at));
            assert(preorder(t).len() == 1 + preorder_all(cs@).len());
            let f = forest_edges(cs@, at + 1, Some(at));
            assert(tree_edges(t, at) == f);
            assert forall|i: int| 0 <= i < f.len() implies at <= (#[trigger] f[i]).0 < f[i].1 < at
                + preorder(t).len() by {
                let e = f[i];
                assert(at + 1 <= e.0 || Some(at) == Some(e.0));
            }
        },
        None => {},
    }
}

/// The edges of trees laid out from node `at` go from an earlier to a later
/// node; each ends at a node of the trees and starts there or at the parent.
pub proof fn lemma_forest_edges_forward(cs: Seq<ModelAssemblyTree>, at: int, parent: Option<int>)
    requires
        parent matches Some(p) ==> p < at,
    ensures
        forall|i: int|
            0 <= i < forest_edges(cs, at, parent).len() ==> {
                let e = #[trigger] forest_edges(cs, at, parent)[i];
                &&& e.0 < e.1
                &&& at <= e.1 < at + preorder_all(cs).len()
                &&& (at <= e.0 || parent == Some(e.0))
            },
    decreases cs, 0nat,
{
    if cs.len() > 0 {
        let prev = cs.drop_last();
        let start = at + preorder_all(prev).len();
        lemma_forest_edges_forward(prev, at, parent);
        lemma_tree_edges_forward(cs.last(), start);
        lemma_preorder_nonempty(cs.last());
        let a = forest_edges(prev, at, parent);
        let l = parent_link(parent, start);
        let b = tree_edges(cs.last(), start);
        assert(forest_edges(cs, at, parent) == a + l + b);
        assert(preorder_all(cs).len() == preorder_all(prev).len() + preorder(cs.last()).len());
        assert forall|i: int| 0 <= i < (a + l + b).len() implies {
            let e = #[trigger] (a + l + b)[i];
            &&& e.0 < e.1
            &&& at <= e.1 < at + preorder_all(cs).len()
            &&& (at <= e.0 || parent == Some(e.0))
        } by {
            if i < a.len() {
                assert((a + l + b)[i] == a[i]);
            } else if i < a.len() + l.len() {
                assert((a + l + b)[i] == l[i - a.len()]);
            } else {
                assert((a + l + b)[i] == b[i - a.len() - l.len()]);
            }
        }
    }
}

/// A tree's edges are one per node but its root: a tree of `n` models has
/// `n - 1` edges.
pub proof fn lemma_tree_edges_count(t: ModelAssemblyTree, at: int)
    ensures
        tree_edges(t, at).len() == preorder(t).len() - 1,
    decreases t, 1nat,
{
    match t.children {
        Some(cs) => {
            lemma_forest_edges_count(cs@, at + 1, Some(at));
        },
        None => {},
    }
}

/// Trees laid out one after the other have an edge to each model but the
/// trees' roots, and one more to each root when they hang from a parent.
pub proof fn lemma_forest_edges_count(cs: Seq<ModelAssemblyTree>, at: int, parent: Option<int>)
    ensures
        forest_edges(cs, at, parent).len() == preorder_all(cs).len() - if parent is Some { 0 } else { cs.len() as int },
    decreases cs, 0nat,
{
    if cs.len() > 0 {
        let prev = cs.drop_last();
        let start = at + preorder_all(prev).len();
        lemma_forest_edges_count(prev, at, parent);
        lemma_tree_edges_count(cs.last(), start);
        assert(forest_edges(cs, at, parent) == forest_edges(prev, at, parent) + parent_link(parent, start)
            + tree_edges(cs.last(), start));
    }
}

/// Every child hangs from its parent: each child tree's root, laid out after
/// the trees before it, is the end of an edge from the parent.
pub proof fn lemma_forest_links_each_child(cs: Seq<ModelAssemblyTree>, at: int, p: int)
    ensures
        forall|j: int|
            0 <= j < cs.len() ==> forest_edges(cs, at, Some(p)).contains(
                (p, at + preorder_all(#[trigger] cs.take(j)).len()),
            ),
    decreases cs.len(),
{
    if cs.len() > 0 {
        let prev = cs.drop_last();
        let n = cs.len() - 1;
        let start = at + preorder_all(prev).len();
        lemma_forest_links_each_child(prev, at, p);
        let a = forest_edges(prev, at, Some(p));
        let l = parent_link(Some(p), start);
        let b = tree_edges(cs.last(), start);
        let f = forest_edges(cs, at, Some(p));
        assert(f == a + l + b);
        assert forall|j: int| 0 <= j < cs.len() implies f.contains((p, at + preorder_all(#[trigger] cs.take(j)).len())) by {
            if j < n {
                assert(cs.take(j) =~= prev.take(j));
                let q = choose|q: int| 0 <= q < a.len() && a[q] == (p, at + preorder_all(prev.take(j)).len());
                assert(f[q] == a[q]);
            } else {
                assert(cs.take(j) =~= prev);
                assert(f[a.len() as int] == l[0]);
            }
        }
    }
}

/// The graph of assembly trees has no cycle: every edge goes from an earlier
/// to a later node, and both ends are nodes of the graph.
pub proof fn lemma_graph_edges_forward(trees: Seq<ModelAssemblyTree>)
    ensures
        forall|i: int|
            0 <= i < forest_edges(trees, 0, None).len() ==> 0 <= (#[trigger] forest_edges(
                trees,
                0,
                None,
            )[i]).0 < forest_edges(trees, 0, None)[i].1 < preorder_all(trees).len(),
{
    lemma_forest_edges_forward(trees, 0, None);
}

/// Each dictionary entry names a node holding that model: the entry of a
/// UUID gives the name and index of the last node of a model with that
/// UUID, and every model's UUID has an entry.
pub proof fn lemma_dictionary_nodes(models: Seq<ModelView>)
    ensures
        forall|u: u128|
            #[trigger] indexed(Map::empty(), models, 0).contains_key(u) ==> {
                let e = indexed(Map::empty(), models, 0)[u];
                &&& 0 <= e.1 < models.len()
                &&& models[e.1].uuid == u
                &&& models[e.1].name == e.0
                &&& e.2 == u
                &&& forall|j: int| e.1 < j < models.len() ==> (#[trigger] models[j]).uuid != u
            },
        forall|i: int|
            0 <= i < models.len() ==> indexed(Map::empty(), models, 0).contains_key(
                (#[trigger] models[i]).uuid,
            ),
    decreases models.len(),
{
    if models.len() > 0 {
        let prev = models.drop_last();
        lemma_dictionary_nodes(prev);
        let d = indexed(Map::empty(), models, 0);
        assert forall|u: u128| #[trigger] d.contains_key(u) implies {
            let e = d[u];
            &&& 0 <= e.1 < models.len()
            &&& models[e.1].uuid == u
            &&& models[e.1].name == e.0
            &&& e.2 == u
            &&& forall|j: int| e.1 < j < models.len() ==> (#[trigger] models[j]).uuid != u
        } by {
            if u != models.last().uuid {
                assert(indexed(Map::empty(), prev, 0).contains_key(u));
                let e = d[u];
                assert(forall|j: int| 0 <= j < prev.len() ==> prev[j] == models[j]);
            }
        }
        assert forall|i: int| 0 <= i < models.len() implies d.contains_key(
            (#[trigger] models[i]).uuid,
        ) by {
            if i < prev.len() {
                assert(prev[i] == models[i]);
            }
        }
    }
}

/// The link from a parent to a new node, when there is a parent.
pub open spec fn parent_link(parent: Option<int>, node: int) -> Seq<(int, int)> {
    match parent {
        Some(p) => seq![(p, node)],
        None => Seq::empty(),
    }
}

/// An optional node index as an integer.
pub open spec fn node_int(parent: Option<usize>) -> Option<int> {
    match parent {
        Some(p) => Some(p as int),
        None => None,
    }
}

/// Adds the nodes, edges and dictionary entries of a tree, its root linked
/// from `parent`.
fn add_tree(
    graph: &mut AssemblyGraph,
    dictionary: &mut HashMap<u128, PartNodeDictionaryItem>,
    parent: Option<usize>,
    tree: &ModelAssemblyTree,
)
    ensures
        final(graph).nodes.deep_view() == old(graph).nodes.deep_view() + node_names(preorder(*tree)),
        edges_view(final(graph).edges@) == edges_view(old(graph).edges@) + parent_link(
            node_int(parent),
            old(graph).nodes@.len() as int,
        ) + tree_edges(*tree, old(graph).nodes@.len() as int),
        dictionary_view(final(dictionary)@) == indexed(
            dictionary_view(old(dictionary)@),
            preorder(*tree),
            old(graph).nodes@.len() as int,
        ),
    decreases *tree, 1nat,
{
    let ghost nodes0 = graph.nodes.deep_view();
    let ghost edges0 = edges_view(graph.edges@);
    let ghost dict0 = dictionary_view(dictionary@);
    let node = graph.nodes.len();
    graph.nodes.push(tree.model.name.clone());
    let entry = PartNodeDictionaryItem { name: tree.model.name.clone(), node, uuid: tree.model.uuid };
    let ghost dict_before = dictionary@;
    dictionary.insert(tree.model.uuid, entry);
    assert(dictionary@ == dict_before.insert(tree.model.uuid, entry));
    match parent {
        Some(p) => {
            graph.edges.push((p, node));
        },
        None => {},
    }
    proof {
        assert(graph.nodes.deep_view() =~= nodes0 + node_names(seq![tree.model@]));
        assert(edges_view(graph.edges@) =~= edges0 + parent_link(node_int(parent), node as int));
        assert(seq![tree.model@].drop_last() =~= Seq::<ModelView>::empty());
        assert(indexed(dict0, Seq::<ModelView>::empty(), node as int) == dict0);
        assert(seq![tree.model@].last() == tree.model@);
        assert(indexed(dict0, seq![tree.model@], node as int) == dict0.insert(
            tree.model.uuid,
            (tree.model.name@, node as int, tree.model.uuid),
        ));
        assert(dictionary_view(dictionary@) =~= dict0.insert(
            tree.model.uuid,
            (tree.model.name@, node as int, tree.model.uuid),
        ));
    }
    let ghost nodes1 = graph.nodes.deep_view();
    let ghost edges1 = edges_view(graph.edges@);
    let ghost dict1 = dictionary_view(dictionary@);
    match &tree.children {
        Some(cs) => {
            add_forest(graph, dictionary, Some(node), cs);
            proof {
                assert(node_names(seq![tree.model@] + preorder_all(cs@)) =~= node_names(
                    seq![tree.model@],
                ) + node_names(preorder_all(cs@)));
                assert(graph.nodes.deep_view() =~= nodes0 + node_names(preorder(*tree)));
                lemma_indexed_append(dict0, seq![tree.model@], preorder_all(cs@), node as int);
            }
        },
        None => {
            proof {
                assert(seq![tree.model@] + Seq::<ModelView>::empty() =~= seq![tree.model@]);
                assert(edges_view(graph.edges@) =~= edges0 + parent_link(node_int(parent), node as int)
                    + Seq::<(int, int)>::empty());
            }
        },
    }
}

/// Adds trees one after the other, each root linked from `parent`.
fn add_forest(
    graph: &mut AssemblyGraph,
    dictionary: &mut HashMap<u128, PartNodeDictionaryItem>,
    parent: Option<usize>,
    trees: &Vec<ModelAssemblyTree>,
)
    ensures
        final(graph).nodes.deep_view() == old(graph).nodes.deep_view() + node_names(
            preorder_all(trees@),
        ),
        edges_view(final(graph).edges@) == edges_view(old(graph).edges@) + forest_edges(
            trees@,
            old(graph).nodes@.len() as int,
            node_int(parent),
        ),
        dictionary_view(final(dictionary)@) == indexed(
            dictionary_view(old(dictionary)@),
            preorder_all(trees@),
            old(graph).nodes@.len() as int,
        ),
    decreases trees@, 0nat,
{
    let ghost nodes0 = graph.nodes.deep_view();
    let ghost edges0 = edges_view(graph.edges@);
    let ghost dict0 = dictionary_view(dictionary@);
    let ghost at = graph.nodes@.len() as int;
    let mut i: usize = 0;
    proof {
        assert(trees@.take(0) =~= Seq::<ModelAssemblyTree>::empty());
        assert(node_names(preorder_all(trees@.take(0))) =~= Seq::<Seq<char>>::empty());
        assert(nodes0 + Seq::<Seq<char>>::empty() =~= nodes0);
        assert(edges0 + Seq::<(int, int)>::empty() =~= edges0);
    }
    while i < trees.len()
        invariant
            i <= trees@.len(),
            graph.nodes.deep_view() == nodes0 + node_names(preorder_all(trees@.take(i as int))),
            graph.nodes@.len() == at + preorder_all(trees@.take(i as int)).len(),
            edges_view(graph.edges@) == edges0 + forest_edges(
                trees@.take(i as int),
                at,
                node_int(parent),
            ),
            dictionary_view(dictionary@) == indexed(dict0, preorder_all(trees@.take(i as int)), at),
        decreases trees@.len() - i,
    {
        proof {
            assert(decreases_to!(trees@ => trees@[i as int]));
        }
        let ghost before = preorder_all(trees@.take(i as int));
        add_tree(graph, dictionary, parent, &trees[i]);
        proof {
            let t = trees@.take(i + 1);
            assert(t.drop_last() =~= trees@.take(i as int));
            assert(t.last() == trees@[i as int]);
            assert(node_names(before + preorder(trees@[i as int])) =~= node_names(before) + node_names(
                preorder(trees@[i as int]),
            ));
            assert(graph.nodes.deep_view() =~= nodes0 + node_names(preorder_all(t)));
            lemma_indexed_append(dict0, before, preorder(trees@[i as int]), at);
        }
        i += 1;
    }
    proof {
        assert(trees@.take(trees@.len() as int) =~= trees@);
    }
}

/// The graph and dictionary of assembly trees, the trees laid out one after
/// the other from node zero with no edges between them.
pub fn assembly_graph(trees: &Vec<ModelAssemblyTree>) -> (r: (
    AssemblyGraph,
    HashMap<u128, PartNodeDictionaryItem>,
))
    ensures
        r.0.nodes.deep_view() == node_names(preorder_all(trees@)),
        edges_view(r.0.edges@) == forest_edges(trees@, 0, None),
        dictionary_view(r.1@) == indexed(Map::empty(), preorder_all(trees@), 0),
{
    let mut graph = AssemblyGraph { nodes: Vec::new(), edges: Vec::new() };
    let mut dictionary: HashMap<u128, PartNodeDictionaryItem> = HashMap::new();
    proof {
        assert(dictionary_view(dictionary@) =~= Map::empty());
    }
    add_forest(&mut graph, &mut dictionary, None, trees);
    proof {
        assert(graph.nodes.deep_view() =~= node_names(preorder_all(trees@)));
        assert(edges_view(graph.edges@) =~= forest_edges(trees@, 0, None));
    }
    (graph, dictionary)
}

impl ModelMatchReport {
    /// The report for assembly trees and the duplicates found among their
    /// parts.
    pub fn new(duplicates: SimpleDuplicatesMatchReport, trees: &Vec<ModelAssemblyTree>) -> (report:
        ModelMatchReport)
        ensures
            report.duplicates == duplicates,
            report.graph.nodes.deep_view() == node_names(preorder_all(trees@)),
            edges_view(report.graph.edges@) == forest_edges(trees@, 0, None),
            dictionary_view(report.dictionary@) == indexed(Map::empty(), preorder_all(trees@), 0),
    {
        let (graph, dictionary) = assembly_graph(trees);
        ModelMatchReport { duplicates, dictionary, graph }
    }
}

} // verus!
