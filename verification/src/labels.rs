//! Label inference: the properties of a model are completed with the
//! properties of the models that match it. The model's own properties come
//! first and are never replaced; after them, the matches are taken in the
//! order given (best score first), and a property is taken from a match only
//! when no earlier source named it.

use vstd::prelude::*;
use crate::model::{
    MetadataItemView, ModelMatch, ModelMatchView, ModelMetadata, ModelMetadataItem,
    MatchedMetadataItem, ListOfMatchedMetadataItems,
};
use crate::text::str_eq;
use crate::text_map::{TextMap, distinct_keys};

verus! {

/// The bit pattern of the score `1.0`, given to the model's own properties.
pub const FULL_SCORE: u64 = 0x3FF0_0000_0000_0000;

/// A label: the value of a property and the score it was found with.
pub type Label = (Seq<char>, u64);

/// The model's own properties, each with the full score; of two properties
/// with one name the later one counts.
pub open spec fn own_labels(props: Seq<MetadataItemView>) -> Map<Seq<char>, Label>
    decreases props.len(),
{
    if props.len() == 0 {
        Map::empty()
    } else {
        own_labels(props.drop_last()).insert(props.last().name, (props.last().value, FULL_SCORE))
    }
}

/// Whether a property name passes the key filter (no filter lets all pass).
pub open spec fn key_wanted(keys: Option<Seq<Seq<char>>>, name: Seq<char>) -> bool {
    match keys {
        Some(k) => k.contains(name),
        None => true,
    }
}

/// The labels after taking, in order, the wanted properties of `items`
/// whose names are not labelled yet, each with `score`.
pub open spec fn add_absent(
    labels: Map<Seq<char>, Label>,
    items: Seq<MetadataItemView>,
    keys: Option<Seq<Seq<char>>>,
    score: u64,
) -> Map<Seq<char>, Label>
    decreases items.len(),
{
    if items.len() == 0 {
        labels
    } else {
        let prev = add_absent(labels, items.drop_last(), keys, score);
        let p = items.last();
        if key_wanted(keys, p.name) && !prev.contains_key(p.name) {
            prev.insert(p.name, (p.value, score))
        } else {
            prev
        }
    }
}

/// The labels after taking the matches in order: a match counts when its
/// model lies in one of the allowed folders and carries metadata.
pub open spec fn inferred_labels(
    labels: Map<Seq<char>, Label>,
    matches: Seq<ModelMatchView>,
    folder_ids: Seq<u32>,
    keys: Option<Seq<Seq<char>>>,
) -> Map<Seq<char>, Label>
    decreases matches.len(),
{
    if matches.len() == 0 {
        labels
    } else {
        let prev = inferred_labels(labels, matches.drop_last(), folder_ids, keys);
        let m = matches.last();
        if folder_ids.contains(m.model.folder_id) && m.model.metadata is Some {
            add_absent(prev, m.model.metadata->0, keys, m.percentage)
        } else {
            prev
        }
    }
}

/// Taking properties of a match never changes a label already given.
pub proof fn lemma_add_absent_keeps(
    labels: Map<Seq<char>, Label>,
    items: Seq<MetadataItemView>,
    keys: Option<Seq<Seq<char>>>,
    score: u64,
    k: Seq<char>,
)
    requires
        labels.contains_key(k),
    ensures
        add_absent(labels, items, keys, score).contains_key(k),
        add_absent(labels, items, keys, score)[k] == labels[k],
    decreases items.len(),
{
    if items.len() > 0 {
        lemma_add_absent_keeps(labels, items.drop_last(), keys, score, k);
    }
}

/// Later matches never change a label that earlier sources gave: the labels
/// after matches `a` then `b` agree with those after `a` on every name that
/// `a` labelled.
pub proof fn lemma_earlier_labels_kept(
    labels: Map<Seq<char>, Label>,
    a: Seq<ModelMatchView>,
    b: Seq<ModelMatchView>,
    folder_ids: Seq<u32>,
    keys: Option<Seq<Seq<char>>>,
    k: Seq<char>,
)
    requires
        inferred_labels(labels, a, folder_ids, keys).contains_key(k),
    ensures
        inferred_labels(labels, a + b, folder_ids, keys).contains_key(k),
        inferred_labels(labels, a + b, folder_ids, keys)[k] == inferred_labels(
            labels,
            a,
            folder_ids,
            keys,
        )[k],
    decreases b.len(),
{
    if b.len() == 0 {
        assert(a + b =~= a);
    } else {
        lemma_earlier_labels_kept(labels, a, b.drop_last(), folder_ids, keys, k);
        assert((a + b).drop_last() =~= a + b.drop_last());
        let m = b.last();
        assert((a + b).last() == m);
        if folder_ids.contains(m.model.folder_id) && m.model.metadata is Some {
            lemma_add_absent_keeps(
                inferred_labels(labels, a + b.drop_last(), folder_ids, keys),
                m.model.metadata->0,
                keys,
                m.percentage,
                k,
            );
        }
    }
}

/// The model's own properties are never replaced by inferred ones: each
/// keeps its own value, with the full score.
pub proof fn lemma_own_labels_kept(
    props: Seq<MetadataItemView>,
    matches: Seq<ModelMatchView>,
    folder_ids: Seq<u32>,
    keys: Option<Seq<Seq<char>>>,
    k: Seq<char>,
)
    requires
        own_labels(props).contains_key(k),
    ensures
        inferred_labels(own_labels(props), matches, folder_ids, keys).contains_key(k),
        inferred_labels(own_labels(props), matches, folder_ids, keys)[k] == own_labels(props)[k],
        own_labels(props)[k].1 == FULL_SCORE,
{
    assert(Seq::<ModelMatchView>::empty() + matches =~= matches);
    lemma_earlier_labels_kept(
        own_labels(props),
        Seq::<ModelMatchView>::empty(),
        matches,
        folder_ids,
        keys,
        k,
    );
    lemma_own_labels_full_score(props, k);
}

/// The model's own labels all carry the full score.
pub proof fn lemma_own_labels_full_score(props: Seq<MetadataItemView>, k: Seq<char>)
    requires
        own_labels(props).contains_key(k),
    ensures
        own_labels(props)[k].1 == FULL_SCORE,
    decreases props.len(),
{
    if props.len() > 0 && props.last().name != k {
        lemma_own_labels_full_score(props.drop_last(), k);
    }
}

/// The model's own labels: a name is labelled exactly when one of the
/// model's properties has it, with the value of the last such property and
/// the full score.
pub proof fn lemma_own_labels_are_last_values(props: Seq<MetadataItemView>)
    ensures
        forall|k: Seq<char>|
            #[trigger] own_labels(props).contains_key(k) <==> exists|i: int|
                0 <= i < props.len() && (#[trigger] props[i]).name == k,
        forall|k: Seq<char>|
            #[trigger] own_labels(props).contains_key(k) ==> exists|i: int|
                0 <= i < props.len() && (#[trigger] props[i]).name == k && own_labels(props)[k] == (
                    props[i].value,
                    FULL_SCORE,
                ) && forall|j: int| i < j < props.len() ==> (#[trigger] props[j]).name != k,
    decreases props.len(),
{
    if props.len() > 0 {
        let init = props.drop_last();
        let n = props.len() - 1;
        lemma_own_labels_are_last_values(init);
        assert(props[n] == props.last());
        assert forall|k: Seq<char>|
            #[trigger] own_labels(props).contains_key(k) <==> exists|i: int|
                0 <= i < props.len() && (#[trigger] props[i]).name == k by {
            if exists|i: int| 0 <= i < props.len() && (#[trigger] props[i]).name == k {
                let i = choose|i: int| 0 <= i < props.len() && (#[trigger] props[i]).name == k;
                if i < n {
                    assert(init[i] == props[i]);
                }
            }
            if own_labels(init).contains_key(k) {
                let i = choose|i: int| 0 <= i < init.len() && (#[trigger] init[i]).name == k;
                assert(props[i] == init[i]);
            }
        }
        assert forall|k: Seq<char>|
            #[trigger] own_labels(props).contains_key(k) implies exists|i: int|
                0 <= i < props.len() && (#[trigger] props[i]).name == k && own_labels(props)[k] == (
                    props[i].value,
                    FULL_SCORE,
                ) && forall|j: int| i < j < props.len() ==> (#[trigger] props[j]).name != k by {
            if props.last().name == k {
                assert(0 <= n < props.len() && props[n].name == k);
            } else {
                let i = choose|i: int|
                    0 <= i < init.len() && (#[trigger] init[i]).name == k && own_labels(init)[k] == (
                        init[i].value,
                        FULL_SCORE,
                    ) && forall|j: int| i < j < init.len() ==> (#[trigger] init[j]).name != k;
                assert(props[i] == init[i]);
                assert forall|j: int| i < j < props.len() implies (#[trigger] props[j]).name != k by {
                    if j < n {
                        assert(init[j] == props[j]);
                    }
                }
            }
        }
    }
}

/// Taking the properties of one match: a name ends up labelled exactly when
/// it was labelled before or some property of the match has it and the key
/// filter, when there is one, lists it; a name newly labelled gets the
/// value of the first such property, with the match's score.
pub proof fn lemma_add_absent_sources(
    labels: Map<Seq<char>, Label>,
    items: Seq<MetadataItemView>,
    keys: Option<Seq<Seq<char>>>,
    score: u64,
)
    ensures
        forall|k: Seq<char>|
            #[trigger] add_absent(labels, items, keys, score).contains_key(k) <==> (labels.contains_key(k)
                || ((keys matches Some(ks) ==> ks.contains(k)) && exists|i: int|
                0 <= i < items.len() && (#[trigger] items[i]).name == k)),
        forall|k: Seq<char>|
            #[trigger] add_absent(labels, items, keys, score).contains_key(k) && !labels.contains_key(k)
                ==> exists|i: int|
                0 <= i < items.len() && (#[trigger] items[i]).name == k && add_absent(labels, items, keys, score)[k]
                    == (items[i].value, score) && forall|j: int| 0 <= j < i ==> (#[trigger] items[j]).name != k,
    decreases items.len(),
{
    if items.len() > 0 {
        let init = items.drop_last();
        let n = items.len() - 1;
        let prev = add_absent(labels, init, keys, score);
        let r = add_absent(labels, items, keys, score);
        let p = items.last();
        lemma_add_absent_sources(labels, init, keys, score);
        assert(items[n] == p);
        assert forall|k: Seq<char>|
            #[trigger] r.contains_key(k) <==> (labels.contains_key(k) || ((keys matches Some(ks) ==> ks.contains(k))
                && exists|i: int| 0 <= i < items.len() && (#[trigger] items[i]).name == k)) by {
            if exists|i: int| 0 <= i < items.len() && (#[trigger] items[i]).name == k {
                let i = choose|i: int| 0 <= i < items.len() && (#[trigger] items[i]).name == k;
                if i < n {
                    assert(init[i] == items[i]);
                }
            }
            if exists|i: int| 0 <= i < init.len() && (#[trigger] init[i]).name == k {
                let i = choose|i: int| 0 <= i < init.len() && (#[trigger] init[i]).name == k;
                assert(items[i] == init[i]);
            }
        }
        assert forall|k: Seq<char>| #[trigger] r.contains_key(k) && !labels.contains_key(k) implies exists|i: int|
            0 <= i < items.len() && (#[trigger] items[i]).name == k && r[k] == (items[i].value, score) && forall|j: int|
                0 <= j < i ==> (#[trigger] items[j]).name != k by {
            if prev.contains_key(k) {
                let i = choose|i: int|
                    0 <= i < init.len() && (#[trigger] init[i]).name == k && prev[k] == (init[i].value, score)
                        && forall|j: int| 0 <= j < i ==> (#[trigger] init[j]).name != k;
                assert(items[i] == init[i]);
                assert forall|j: int| 0 <= j < i implies (#[trigger] items[j]).name != k by {
                    assert(init[j] == items[j]);
                }
            } else {
                assert(p.name == k);
                assert forall|j: int| 0 <= j < n implies (#[trigger] items[j]).name != k by {
                    assert(init[j] == items[j]);
                    if items[j].name == k {
                        assert(key_wanted(keys, k));
                    }
                }
            }
        }
    }
}

/// A match offers a label for a name: it lies in an allowed folder, the key
/// filter (if any) lists the name, and it carries a property of that name.
pub open spec fn match_offers(m: ModelMatchView, folder_ids: Seq<u32>, keys: Option<Seq<Seq<char>>>, k: Seq<char>) -> bool {
    &&& folder_ids.contains(m.model.folder_id)
    &&& (keys matches Some(ks) ==> ks.contains(k))
    &&& m.model.metadata matches Some(items) && exists|i: int| 0 <= i < items.len() && (#[trigger] items[i]).name == k
}

/// Inference over matches: a name ends up labelled exactly when it was
/// labelled before or some match offers it; a name newly labelled takes
/// the value of a property of that name of the first match offering it,
/// with that match's score.
pub proof fn lemma_inferred_label_sources(
    labels: Map<Seq<char>, Label>,
    matches: Seq<ModelMatchView>,
    folder_ids: Seq<u32>,
    keys: Option<Seq<Seq<char>>>,
)
    ensures
        forall|k: Seq<char>|
            #[trigger] inferred_labels(labels, matches, folder_ids, keys).contains_key(k) <==> (labels.contains_key(k)
                || exists|j: int| 0 <= j < matches.len() && match_offers(#[trigger] matches[j], folder_ids, keys, k)),
        forall|k: Seq<char>|
            #[trigger] inferred_labels(labels, matches, folder_ids, keys).contains_key(k) && !labels.contains_key(k)
                ==> exists|j: int|
                0 <= j < matches.len() && match_offers(#[trigger] matches[j], folder_ids, keys, k) && (forall|q: int|
                    0 <= q < j ==> !match_offers(#[trigger] matches[q], folder_ids, keys, k)) && exists|i: int|
                    0 <= i < matches[j].model.metadata->0.len() && (#[trigger] matches[j].model.metadata->0[i]).name == k
                        && inferred_labels(labels, matches, folder_ids, keys)[k] == (
                        matches[j].model.metadata->0[i].value,
                        matches[j].percentage,
                    ),
    decreases matches.len(),
{
    if matches.len() > 0 {
        let init = matches.drop_last();
        let n = matches.len() - 1;
        let m = matches.last();
        let prev = inferred_labels(labels, init, folder_ids, keys);
        let r = inferred_labels(labels, matches, folder_ids, keys);
        lemma_inferred_label_sources(labels, init, folder_ids, keys);
        assert(matches[n] == m);
        assert forall|q: int| 0 <= q < n implies #[trigger] init[q] == matches[q] by {}
        let counts = folder_ids.contains(m.model.folder_id) && m.model.metadata is Some;
        if counts {
            lemma_add_absent_sources(prev, m.model.metadata->0, keys, m.percentage);
        }
        assert forall|k: Seq<char>| #[trigger] r.contains_key(k) <==> (labels.contains_key(k)
            || exists|j: int| 0 <= j < matches.len() && match_offers(#[trigger] matches[j], folder_ids, keys, k)) by {
            if exists|j: int| 0 <= j < matches.len() && match_offers(#[trigger] matches[j], folder_ids, keys, k) {
                let j = choose|j: int| 0 <= j < matches.len() && match_offers(#[trigger] matches[j], folder_ids, keys, k);
                if j < n {
                    assert(match_offers(init[j], folder_ids, keys, k));
                    if counts {
                        assert(prev.contains_key(k));
                    }
                } else {
                    assert(match_offers(m, folder_ids, keys, k));
                }
            }
            if prev.contains_key(k) && !labels.contains_key(k) {
                let j = choose|j: int| 0 <= j < init.len() && match_offers(#[trigger] init[j], folder_ids, keys, k);
                assert(match_offers(matches[j], folder_ids, keys, k));
            }
            if counts && r.contains_key(k) && !prev.contains_key(k) {
                assert(match_offers(matches[n], folder_ids, keys, k));
            }
        }
        assert forall|k: Seq<char>| #[trigger] r.contains_key(k) && !labels.contains_key(k) implies exists|j: int|
            0 <= j < matches.len() && match_offers(#[trigger] matches[j], folder_ids, keys, k) && (forall|q: int|
                0 <= q < j ==> !match_offers(#[trigger] matches[q], folder_ids, keys, k)) && exists|i: int|
                0 <= i < matches[j].model.metadata->0.len() && (#[trigger] matches[j].model.metadata->0[i]).name == k
                    && r[k] == (matches[j].model.metadata->0[i].value, matches[j].percentage) by {
            if prev.contains_key(k) {
                let j = choose|j: int|
                    0 <= j < init.len() && match_offers(#[trigger] init[j], folder_ids, keys, k) && (forall|q: int|
                        0 <= q < j ==> !match_offers(#[trigger] init[q], folder_ids, keys, k)) && exists|i: int|
                        0 <= i < init[j].model.metadata->0.len() && (#[trigger] init[j].model.metadata->0[i]).name == k
                            && prev[k] == (init[j].model.metadata->0[i].value, init[j].percentage);
                if counts {
                    lemma_add_absent_keeps(prev, m.model.metadata->0, keys, m.percentage, k);
                }
                assert(matches[j] == init[j]);
                assert forall|q: int| 0 <= q < j implies !match_offers(#[trigger] matches[q], folder_ids, keys, k) by {
                    assert(init[q] == matches[q]);
                }
            } else {
                assert(counts);
                let items = m.model.metadata->0;
                let i = choose|i: int|
                    0 <= i < items.len() && (#[trigger] items[i]).name == k && r[k] == (items[i].value, m.percentage)
                        && forall|jj: int| 0 <= jj < i ==> (#[trigger] items[jj]).name != k;
                assert(key_wanted(keys, k));
                assert(match_offers(matches[n], folder_ids, keys, k));
                assert forall|q: int| 0 <= q < n implies !match_offers(#[trigger] matches[q], folder_ids, keys, k) by {
                    if match_offers(matches[q], folder_ids, keys, k) {
                        assert(match_offers(init[q], folder_ids, keys, k));
                    }
                }
            }
        }
    }
}

/// The model's own properties as a sequence (none when it has no metadata).
pub open spec fn own_items(original: Option<ModelMetadata>) -> Seq<MetadataItemView> {
    match original {
        Some(m) => m.properties.deep_view(),
        None => Seq::empty(),
    }
}

/// The items held by `map` stand for `labels`: every key names an item of
/// `uuid` with that name, and the item carries the key's label.
pub open spec fn holds_labels(
    map: TextMap<MatchedMetadataItem>,
    labels: Map<Seq<char>, Label>,
    uuid: u128,
) -> bool {
    &&& distinct_keys(map.keys())
    &&& map.spec_map().dom() == labels.dom()
    &&& forall|k: Seq<char>|
        #[trigger] labels.contains_key(k) ==> {
            &&& map.spec_map()[k].name@ == k
            &&& map.spec_map()[k].uuid == uuid
            &&& (map.spec_map()[k].value@, map.spec_map()[k].score) == labels[k]
        }
}

/// Labels an item under its name, replacing the label of that name.
fn put_label(
    map: &mut TextMap<MatchedMetadataItem>,
    uuid: u128,
    item: &ModelMetadataItem,
    score: u64,
    Ghost(labels): Ghost<Map<Seq<char>, Label>>,
)
    requires
        holds_labels(*old(map), labels, uuid),
    ensures
        holds_labels(*final(map), labels.insert(item.name@, (item.value@, score)), uuid),
{
    let label = MatchedMetadataItem::new(uuid, item.name.clone(), item.value.clone(), score);
    let ghost after = labels.insert(item.name@, (item.value@, score));
    map.insert(item.name.clone(), label);
    assert(map.spec_map().dom() =~= after.dom());
}

/// Takes the wanted properties of `items` whose names are not labelled yet.
fn add_absent_items(
    map: &mut TextMap<MatchedMetadataItem>,
    uuid: u128,
    items: &Vec<ModelMetadataItem>,
    keys: &Option<Vec<String>>,
    score: u64,
    Ghost(labels): Ghost<Map<Seq<char>, Label>>,
)
    requires
        holds_labels(*old(map), labels, uuid),
    ensures
        holds_labels(*final(map), add_absent(labels, items.deep_view(), keys.deep_view(), score), uuid),
{
    let ghost props = items.deep_view();
    let mut i: usize = 0;
    while i < items.len()
        invariant
            i <= items@.len(),
            props == items.deep_view(),
            holds_labels(*map, add_absent(labels, props.take(i as int), keys.deep_view(), score), uuid),
        decreases items@.len() - i,
    {
        let ghost prev = add_absent(labels, props.take(i as int), keys.deep_view(), score);
        proof {
            assert(props.take(i + 1).drop_last() =~= props.take(i as int));
            assert(props.take(i + 1).last() == props[i as int]);
        }
        let item = &items[i];
        let wanted = key_listed(keys, &item.name);
        if wanted && map.get(item.name.as_str()).is_none() {
            put_label(map, uuid, item, score, Ghost(prev));
        }
        i += 1;
    }
    proof {
        assert(props.take(items@.len() as int) =~= props);
    }
}

/// Whether a name passes the key filter.
fn key_listed(keys: &Option<Vec<String>>, name: &String) -> (r: bool)
    ensures
        r == key_wanted(keys.deep_view(), name@),
{
    match keys {
        None => true,
        Some(k) => {
            let ghost ks = k.deep_view();
            assert(keys.deep_view() == Some(ks));
            let mut i: usize = 0;
            while i < k.len()
                invariant
                    i <= k@.len(),
                    ks == k.deep_view(),
                    keys.deep_view() == Some(ks),
                    forall|j: int| 0 <= j < i ==> ks[j] != name@,
                decreases k@.len() - i,
            {
                if str_eq(k[i].as_str(), name.as_str()) {
                    assert(ks[i as int] == name@);
                    assert(ks.contains(name@));
                    return true;
                }
                i += 1;
            }
            proof {
                if ks.contains(name@) {
                    let j = choose|j: int| 0 <= j < ks.len() && ks[j] == name@;
                    assert(ks[j] == name@);
                }
            }
            false
        },
    }
}

/// Whether an id is one of the allowed folder ids.
fn folder_allowed(folder_ids: &Vec<u32>, id: u32) -> (r: bool)
    ensures
        r == folder_ids@.contains(id),
{
    let mut i: usize = 0;
    while i < folder_ids.len()
        invariant
            i <= folder_ids@.len(),
            forall|j: int| 0 <= j < i ==> folder_ids@[j] != id,
        decreases folder_ids@.len() - i,
    {
        if folder_ids[i] == id {
            assert(folder_ids@[i as int] == id);
            return true;
        }
        i += 1;
    }
    false
}

/// The items that stand for the model's own properties.
fn own_label_map(uuid: u128, original: &Option<ModelMetadata>) -> (map: TextMap<MatchedMetadataItem>)
    ensures
        holds_labels(
            map,
            own_labels(own_items(*original)),
            uuid,
        ),
{
    let mut map: TextMap<MatchedMetadataItem> = TextMap::new();
    assert(map.spec_map().dom() =~= Map::<Seq<char>, Label>::empty().dom());
    match original {
        None => {
            assert(own_labels(Seq::<MetadataItemView>::empty()) == Map::<Seq<char>, Label>::empty());
        },
        Some(meta) => {
            let props = &meta.properties;
            let ghost ps = props.deep_view();
            let mut i: usize = 0;
            while i < props.len()
                invariant
                    i <= props@.len(),
                    ps == props.deep_view(),
                    holds_labels(map, own_labels(ps.take(i as int)), uuid),
                decreases props@.len() - i,
            {
                proof {
                    assert(ps.take(i + 1).drop_last() =~= ps.take(i as int));
                    assert(ps.take(i + 1).last() == ps[i as int]);
                }
                put_label(&mut map, uuid, &props[i], FULL_SCORE, Ghost(own_labels(ps.take(i as int))));
                i += 1;
            }
            proof {
                assert(ps.take(props@.len() as int) =~= ps);
            }
        },
    }
    map
}

/// Completes the labels of the model `uuid`: its own properties (from
/// `original`) with the full score, then, taking `matches` in order, the
/// properties of each match whose model lies in one of `folder_ids`, where
/// `keys` (if given) lists the property names wanted. A name labelled once
/// keeps its label. Each result item names the model `uuid`.
pub fn label_inference(
    uuid: u128,
    original: &Option<ModelMetadata>,
    matches: &Vec<ModelMatch>,
    folder_ids: &Vec<u32>,
    keys: &Option<Vec<String>>,
) -> (result: ListOfMatchedMetadataItems)
    ensures
        ({
            let labels = inferred_labels(
                own_labels(own_items(*original)),
                matches.deep_view(),
                folder_ids@,
                keys.deep_view(),
            );
            &&& forall|i: int, j: int|
                0 <= i < j < result.items@.len() ==> (#[trigger] result.items@[i]).name@
                    != (#[trigger] result.items@[j]).name@
            &&& forall|i: int|
                0 <= i < result.items@.len() ==> {
                    &&& (#[trigger] result.items@[i]).uuid == uuid
                    &&& labels.contains_key(result.items@[i].name@)
                    &&& labels[result.items@[i].name@] == (
                        result.items@[i].value@,
                        result.items@[i].score,
                    )
                }
            &&& forall|k: Seq<char>|
                #[trigger] labels.contains_key(k) ==> exists|i: int|
                    0 <= i < result.items@.len() && (#[trigger] result.items@[i]).name@ == k
        }),
{
    let ghost start = own_labels(own_items(*original));
    let ghost ms = matches.deep_view();
    let mut map = own_label_map(uuid, original);
    let mut i: usize = 0;
    while i < matches.len()
        invariant
            i <= matches@.len(),
            ms == matches.deep_view(),
            holds_labels(map, inferred_labels(start, ms.take(i as int), folder_ids@, keys.deep_view()), uuid),
        decreases matches@.len() - i,
    {
        let ghost prev = inferred_labels(start, ms.take(i as int), folder_ids@, keys.deep_view());
        proof {
            assert(ms.take(i + 1).drop_last() =~= ms.take(i as int));
            assert(ms.take(i + 1).last() == ms[i as int]);
        }
        let m = &matches[i];
        if folder_allowed(folder_ids, m.model.folder_id) {
            match &m.model.metadata {
                Some(items) => {
                    add_absent_items(&mut map, uuid, items, keys, m.percentage, Ghost(prev));
                },
                None => {},
            }
        }
        i += 1;
    }
    let ghost labels = inferred_labels(start, ms, folder_ids@, keys.deep_view());
    proof {
        assert(ms.take(matches@.len() as int) =~= ms);
    }
    let ghost gm = map;
    let ghost keys_seq = map.keys();
    let items = map.into_values();
    proof {
        gm.lemma_domain();
        assert forall|i: int| 0 <= i < items@.len() implies gm.spec_map()[keys_seq[i]] == items@[i] by {
            gm.lemma_entry_value(i);
        }
        assert forall|i: int| 0 <= i < items@.len() implies {
            &&& (#[trigger] items@[i]).uuid == uuid
            &&& labels.contains_key(items@[i].name@)
            &&& labels[items@[i].name@] == (items@[i].value@, items@[i].score)
        } by {
            gm.lemma_entry_value(i);
            assert(keys_seq.contains(keys_seq[i]));
            assert(gm.spec_map().contains_key(keys_seq[i]));
        }
        assert forall|i: int, j: int|
            0 <= i < j < items@.len() implies (#[trigger] items@[i]).name@ != (#[trigger] items@[j]).name@ by {
            gm.lemma_entry_value(i);
            gm.lemma_entry_value(j);
            assert(gm.spec_map().contains_key(keys_seq[i]));
            assert(gm.spec_map().contains_key(keys_seq[j]));
        }
        assert forall|k: Seq<char>| #[trigger] labels.contains_key(k) implies exists|i: int|
            0 <= i < items@.len() && (#[trigger] items@[i]).name@ == k by {
            assert(gm.spec_map().contains_key(k));
            assert(keys_seq.contains(k));
            let i = choose|i: int| 0 <= i < keys_seq.len() && keys_seq[i] == k;
            gm.lemma_entry_value(i);
            assert(items@[i].name@ == k);
        }
    }
    ListOfMatchedMetadataItems::new(items)
}

} // verus!
