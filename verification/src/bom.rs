//! Flattening assembly trees into the set of their models.

use vstd::prelude::*;
use crate::model::{FlatBom, Model, ModelAssemblyTree, ModelView};
use crate::text::{uuid_text, uuid_to_string};
use crate::text_map::TextMap;

verus! {

/// The models of a tree in pre-order: the root, then each child's tree.
pub open spec fn preorder(t: ModelAssemblyTree) -> Seq<ModelView>
    decreases t, 1nat,
{
    seq![t.model@] + match t.children {
        Some(cs) => preorder_all(cs@),
        None => Seq::empty(),
    }
}

/// The pre-orders of several trees, one after the other.
pub open spec fn preorder_all(cs: Seq<ModelAssemblyTree>) -> Seq<ModelView>
    decreases cs, 0nat,
{
    if cs.len() == 0 {
        Seq::empty()
    } else {
        preorder_all(cs.drop_last()) + preorder(cs.last())
    }
}

/// The pre-order of several trees holds every model of each of them.
pub proof fn lemma_preorder_all_holds_each_tree(cs: Seq<ModelAssemblyTree>)
    ensures
        forall|j: int, i: int|
            0 <= j < cs.len() && 0 <= i < preorder(cs[j]).len() ==> preorder_all(cs).contains(
                #[trigger] preorder(#[trigger] cs[j])[i],
            ),
    decreases cs.len(),
{
    if cs.len() > 0 {
        let init = cs.drop_last();
        lemma_preorder_all_holds_each_tree(init);
        let all = preorder_all(cs);
        let prev = preorder_all(init);
        let last = preorder(cs.last());
        assert(all == prev + last);
        assert forall|j: int, i: int|
            0 <= j < cs.len() && 0 <= i < preorder(cs[j]).len() implies all.contains(
                #[trigger] preorder(#[trigger] cs[j])[i],
            ) by {
            if j < init.len() {
                assert(init[j] == cs[j]);
                assert(prev.contains(preorder(init[j])[i]));
                let q = choose|q: int| 0 <= q < prev.len() && prev[q] == preorder(init[j])[i];
                assert(all[q] == prev[q]);
            } else {
                assert(cs[j] == cs.last());
                assert(all[prev.len() + i] == last[i]);
            }
        }
    }
}

/// A tree's pre-order starts with its own model and holds every model of
/// each of its children's trees.
pub proof fn lemma_preorder_holds_root_and_subtrees(t: ModelAssemblyTree)
    ensures
        preorder(t).len() >= 1,
        preorder(t)[0] == t.model@,
        t.children matches Some(cs) ==> forall|j: int, i: int|
            0 <= j < cs@.len() && 0 <= i < preorder(cs@[j]).len() ==> preorder(t).contains(
                #[trigger] preorder(#[trigger] cs@[j])[i],
            ),
{
    if t.children is Some {
        let cs = t.children->0@;
        lemma_preorder_all_holds_each_tree(cs);
        let all = preorder_all(cs);
        assert(preorder(t) == seq![t.model@] + all);
        assert forall|j: int, i: int|
            0 <= j < cs.len() && 0 <= i < preorder(cs[j]).len() implies preorder(t).contains(
                #[trigger] preorder(#[trigger] cs[j])[i],
            ) by {
            let q = choose|q: int| 0 <= q < all.len() && all[q] == preorder(cs[j])[i];
            assert(preorder(t)[q + 1] == all[q]);
        }
    }
}

/// Models keyed by the text of their UUID, later ones replacing earlier
/// ones with the same UUID.
pub open spec fn keyed_models(start: Map<Seq<char>, ModelView>, models: Seq<ModelView>) -> Map<
    Seq<char>,
    ModelView,
>
    decreases models.len(),
{
    if models.len() == 0 {
        start
    } else {
        keyed_models(start, models.drop_last()).insert(
            uuid_text(models.last().uuid as nat),
            models.last(),
        )
    }
}

/// The views of the models of a map.
pub open spec fn model_views(m: Map<Seq<char>, Model>) -> Map<Seq<char>, ModelView> {
    m.map_values(|x: Model| x@)
}

pub proof fn lemma_keyed_models_append(
    start: Map<Seq<char>, ModelView>,
    a: Seq<ModelView>,
    b: Seq<ModelView>,
)
    ensures
        keyed_models(start, a + b) == keyed_models(keyed_models(start, a), b),
    decreases b.len(),
{
    if b.len() == 0 {
        assert(a + b =~= a);
    } else {
        lemma_keyed_models_append(start, a, b.drop_last());
        assert((a + b).drop_last() =~= a + b.drop_last());
    }
}

/// Keying models by UUID text keeps every model and nothing else: each
/// model's UUID text is a key, and each key is the UUID text of the model it
/// holds, one of the models given.
pub proof fn lemma_keyed_models_hold_all(models: Seq<ModelView>)
    ensures
        forall|i: int|
            0 <= i < models.len() ==> keyed_models(Map::empty(), models).contains_key(
                uuid_text((#[trigger] models[i]).uuid as nat),
            ),
        forall|k: Seq<char>|
            #[trigger] keyed_models(Map::empty(), models).contains_key(k) ==> uuid_text(
                keyed_models(Map::empty(), models)[k].uuid as nat,
            ) == k && models.contains(keyed_models(Map::empty(), models)[k]),
    decreases models.len(),
{
    if models.len() > 0 {
        let prev = models.drop_last();
        lemma_keyed_models_hold_all(prev);
        let m = keyed_models(Map::empty(), models);
        assert forall|i: int| 0 <= i < models.len() implies m.contains_key(
            uuid_text((#[trigger] models[i]).uuid as nat),
        ) by {
            if i < prev.len() {
                assert(prev[i] == models[i]);
            }
        }
        assert forall|k: Seq<char>| #[trigger] m.contains_key(k) implies uuid_text(m[k].uuid as nat)
            == k && models.contains(m[k]) by {
            if k == uuid_text(models.last().uuid as nat) {
                assert(models[models.len() - 1] == models.last());
            } else {
                let p = keyed_models(Map::empty(), prev);
                assert(p.contains_key(k));
                let j = choose|j: int| 0 <= j < prev.len() && prev[j] == p[k];
                assert(models[j] == prev[j]);
            }
        }
    }
}

/// The bill of materials of a tree holds every model of the tree under the
/// text of its UUID, and nothing else.
pub proof fn lemma_flat_bom_of_tree(tree: ModelAssemblyTree)
    ensures
        forall|i: int|
            0 <= i < preorder(tree).len() ==> keyed_models(Map::empty(), preorder(tree)).contains_key(
                uuid_text((#[trigger] preorder(tree)[i]).uuid as nat),
            ),
        forall|k: Seq<char>|
            #[trigger] keyed_models(Map::empty(), preorder(tree)).contains_key(k) ==> uuid_text(
                keyed_models(Map::empty(), preorder(tree))[k].uuid as nat,
            ) == k && preorder(tree).contains(keyed_models(Map::empty(), preorder(tree))[k]),
{
    lemma_keyed_models_hold_all(preorder(tree));
}

/// Adds the models of a tree to a map keyed by UUID text.
fn add_tree(map: &mut TextMap<Model>, tree: &ModelAssemblyTree)
    ensures
        model_views(final(map).spec_map()) == keyed_models(
            model_views(old(map).spec_map()),
            preorder(*tree),
        ),
    decreases *tree, 1nat,
{
    let ghost start = model_views(map.spec_map());
    let key = uuid_to_string(tree.model.uuid);
    map.insert(key, tree.model.duplicate());
    proof {
        assert(model_views(map.spec_map()) =~= start.insert(
            uuid_text(tree.model.uuid as nat),
            tree.model@,
        ));
        assert(seq![tree.model@].drop_last() =~= Seq::<ModelView>::empty());
        assert(keyed_models(start, Seq::<ModelView>::empty()) == start);
        assert(keyed_models(start, seq![tree.model@]) == start.insert(
            uuid_text(tree.model.uuid as nat),
            tree.model@,
        ));
    }
    match &tree.children {
        Some(cs) => {
            add_trees(map, cs);
            proof {
                lemma_keyed_models_append(start, seq![tree.model@], preorder_all(cs@));
            }
        },
        None => {
            assert(seq![tree.model@] + Seq::<ModelView>::empty() =~= seq![tree.model@]);
        },
    }
}

/// Adds the models of several trees, in order.
fn add_trees(map: &mut TextMap<Model>, cs: &Vec<ModelAssemblyTree>)
    ensures
        model_views(final(map).spec_map()) == keyed_models(
            model_views(old(map).spec_map()),
            preorder_all(cs@),
        ),
    decreases cs@, 0nat,
{
    let ghost start = model_views(map.spec_map());
    let mut i: usize = 0;
    while i < cs.len()
        invariant
            i <= cs.len(),
            model_views(map.spec_map()) == keyed_models(start, preorder_all(cs@.take(i as int))),
        decreases cs.len() - i,
    {
        proof {
            assert(decreases_to!(cs@ => cs@[i as int]));
        }
        add_tree(map, &cs[i]);
        proof {
            let t = cs@.take(i + 1);
            assert(t.drop_last() =~= cs@.take(i as int));
            lemma_keyed_models_append(start, preorder_all(cs@.take(i as int)), preorder(cs@[i as int]));
        }
        i += 1;
    }
    proof {
        assert(cs@.take(cs.len() as int) =~= cs@);
    }
}

impl FlatBom {
    /// All models of an assembly tree, keyed by the text of their UUID; a
    /// UUID met again later in pre-order keeps the later model.
    pub fn from_tree(tree: &ModelAssemblyTree) -> (bom: FlatBom)
        ensures
            model_views(bom.inner.spec_map()) == keyed_models(Map::empty(), preorder(*tree)),
    {
        let mut inner: TextMap<Model> = TextMap::new();
        proof {
            assert(model_views(inner.spec_map()) =~= Map::<Seq<char>, ModelView>::empty());
        }
        add_tree(&mut inner, tree);
        FlatBom { inner }
    }

    /// An empty bill of materials.
    pub fn empty() -> (bom: FlatBom)
        ensures
            model_views(bom.inner.spec_map()) == Map::<Seq<char>, ModelView>::empty(),
    {
        let inner: TextMap<Model> = TextMap::new();
        assert(model_views(inner.spec_map()) =~= Map::<Seq<char>, ModelView>::empty());
        FlatBom { inner }
    }

    /// A bill of materials holding the given models.
    pub fn new(elements: TextMap<Model>) -> (bom: FlatBom)
        ensures
            bom.inner == elements,
    {
        FlatBom { inner: elements }
    }

    /// Adds the models of another bill of materials; a key present in both
    /// takes the other's model.
    pub fn extend(&mut self, bom: &FlatBom)
        ensures
            model_views(final(self).inner.spec_map()) == model_views(
                old(self).inner.spec_map(),
            ).union_prefer_right(model_views(bom.inner.spec_map())),
    {
        let ghost start = model_views(self.inner.spec_map());
        let ghost other = model_views(bom.inner.spec_map());
        let entries = bom.inner.entries();
        let ghost keys = bom.inner.keys();
        proof {
            bom.inner.lemma_domain();
            assert(start.union_prefer_right(other.restrict(keys.take(0).to_set())) =~= start);
        }
        let mut i: usize = 0;
        while i < entries.len()
            invariant
                i <= entries@.len(),
                entries@.len() == keys.len(),
                keys == bom.inner.keys(),
                other == model_views(bom.inner.spec_map()),
                forall|j: int| 0 <= j < entries@.len() ==> #[trigger] entries@[j].0@ == keys[j],
                forall|k: Seq<char>| #[trigger] other.contains_key(k) <==> keys.contains(k),
                model_views(self.inner.spec_map()) == start.union_prefer_right(
                    other.restrict(keys.take(i as int).to_set()),
                ),
            decreases entries@.len() - i,
        {
            let key = &entries[i].0;
            proof {
                bom.inner.lemma_domain();
                assert(keys.contains(keys[i as int]));
            }
            match bom.inner.get(key.as_str()) {
                Some(model) => {
                    let ghost before = model_views(self.inner.spec_map());
                    self.inner.insert(key.clone(), model.duplicate());
                    proof {
                        assert forall|k: Seq<char>|
                            keys.take(i + 1).to_set().contains(k) <==> keys.take(
                                i as int,
                            ).to_set().insert(keys[i as int]).contains(k) by {
                            if keys.take(i + 1).contains(k) {
                                let j = choose|j: int| 0 <= j < i + 1 && #[trigger] keys.take(i + 1)[j] == k;
                                if j < i {
                                    assert(keys.take(i as int)[j] == k);
                                }
                            }
                            if keys.take(i as int).contains(k) {
                                let j = choose|j: int| 0 <= j < i && #[trigger] keys.take(i as int)[j] == k;
                                assert(keys.take(i + 1)[j] == k);
                            }
                            if k == keys[i as int] {
                                assert(keys.take(i + 1)[i as int] == k);
                            }
                        }
                        assert(keys.take(i + 1).to_set() =~= keys.take(i as int).to_set().insert(
                            keys[i as int],
                        ));
                        assert(model_views(self.inner.spec_map()) =~= before.insert(
                            keys[i as int],
                            other[keys[i as int]],
                        ));
                        assert(model_views(self.inner.spec_map()) =~= start.union_prefer_right(
                            other.restrict(keys.take(i + 1).to_set()),
                        ));
                    }
                },
                None => {
                    assert(false);
                },
            }
            i += 1;
        }
        proof {
            assert(keys.take(entries@.len() as int) =~= keys);
            assert(other.restrict(keys.to_set()) =~= other);
        }
    }

    /// The UUIDs of the models, one per entry, in entry order.
    pub fn model_uuids(&self) -> (uuids: Vec<u128>)
        ensures
            uuids@.len() == self.inner.keys().len(),
            forall|i: int|
                0 <= i < uuids@.len() ==> #[trigger] uuids@[i] == self.inner.spec_map()[self.inner.keys()[i]].uuid,
    {
        let entries = self.inner.entries();
        let mut uuids: Vec<u128> = Vec::new();
        let mut i: usize = 0;
        while i < entries.len()
            invariant
                i <= entries@.len(),
                entries@.len() == self.inner.keys().len(),
                forall|j: int| 0 <= j < entries@.len() ==> #[trigger] entries@[j].0@ == self.inner.keys()[j],
                uuids@.len() == i,
                forall|j: int|
                    0 <= j < i ==> #[trigger] uuids@[j] == self.inner.spec_map()[self.inner.keys()[j]].uuid,
            decreases entries@.len() - i,
        {
            let m = self.inner.get(entries[i].0.as_str());
            proof {
                self.inner.lemma_domain();
                assert(self.inner.keys().contains(self.inner.keys()[i as int]));
            }
            match m {
                Some(model) => {
                    uuids.push(model.uuid);
                },
                None => {
                    assert(false);
                    uuids.push(0);
                },
            }
            i += 1;
        }
        uuids
    }
}

impl ModelAssemblyTree {
    /// The text shown for a tree node: the model's name and, in brackets,
    /// its UUID.
    pub fn label(&self) -> (text: String)
        ensures
            text@ == self.model.name@ + ":["@ + uuid_text(self.model.uuid as nat) + "]"@,
    {
        let uuid = uuid_to_string(self.model.uuid);
        let mut text = self.model.name.clone();
        text.append(":[");
        text.append(uuid.as_str());
        text.append("]");
        text
    }
}

} // verus!
