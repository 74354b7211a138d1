//! Decisions of the service operations that combine several calls:
//! merging metadata of matches, naming classification properties,
//! trimming visual matches, counting model states and inferring property
//! values from matches, caching models, collecting image search results
//! and choosing folders to delete.

use vstd::prelude::*;
use crate::model::{
    duplicate_items, EnvironmentStatusReport, FolderView, ModelStatusRecord, ListOfFolders, MetadataItemView, Model, ModelMatch, ModelMetadata,
    ModelMetadataItem, ModelView, Property, PropertyCollection, VisuallyMatchedModel,
};
use crate::text::{
    chars_eq_ignore_ascii_case, concat3, eq_ignore_ascii_case, joined, join_texts, str_eq,
    unicode_upper, to_uppercase,
};
use crate::report::ApiError;

verus! {

/// The reference model's properties renamed with a `reference.` prefix.
pub open spec fn reference_items(items: Seq<MetadataItemView>) -> Seq<MetadataItemView> {
    Seq::new(
        items.len(),
        |i: int|
            MetadataItemView {
                key_id: items[i].key_id,
                name: "reference."@ + items[i].name,
                value: items[i].value,
            },
    )
}

/// The metadata items shown with a match: the matched model's items (if it
/// has metadata) followed by the reference model's items renamed (if it has
/// metadata); nothing when neither has metadata.
pub open spec fn combined_items(
    matching: Option<Seq<MetadataItemView>>,
    reference: Option<Seq<MetadataItemView>>,
) -> Option<Seq<MetadataItemView>> {
    match (matching, reference) {
        (None, None) => None,
        (Some(m), None) => Some(m),
        (None, Some(rf)) => Some(reference_items(rf)),
        (Some(m), Some(rf)) => Some(m + reference_items(rf)),
    }
}

/// The metadata shown with a match: none exactly when neither model has
/// metadata; otherwise the matched model's items, unchanged and in order,
/// then each reference item with the same key and value and its name
/// prefixed by `reference.`.
pub proof fn lemma_combined_items_layout(
    matching: Option<Seq<MetadataItemView>>,
    reference: Option<Seq<MetadataItemView>>,
)
    ensures
        combined_items(matching, reference) is None <==> (matching is None && reference is None),
        combined_items(matching, reference) matches Some(c) ==> {
            let a = match matching { Some(m) => m, None => Seq::<MetadataItemView>::empty() };
            let b = match reference { Some(rf) => rf, None => Seq::<MetadataItemView>::empty() };
            &&& c.len() == a.len() + b.len()
            &&& forall|i: int| 0 <= i < a.len() ==> #[trigger] c[i] == a[i]
            &&& forall|i: int|
                0 <= i < b.len() ==> {
                    &&& (#[trigger] c[a.len() + i]).key_id == b[i].key_id
                    &&& c[a.len() + i].name == "reference."@ + b[i].name
                    &&& c[a.len() + i].value == b[i].value
                }
        },
{
    match (matching, reference) {
        (Some(m), Some(rf)) => {
            let c = m + reference_items(rf);
            assert forall|i: int| 0 <= i < rf.len() implies {
                &&& (#[trigger] c[m.len() + i]).key_id == rf[i].key_id
                &&& c[m.len() + i].name == "reference."@ + rf[i].name
                &&& c[m.len() + i].value == rf[i].value
            } by {
                assert(c[m.len() + i] == reference_items(rf)[i]);
            }
        },
        _ => {},
    }
}

/// The items of optional metadata, by view.
pub open spec fn metadata_items(meta: Option<ModelMetadata>) -> Option<Seq<MetadataItemView>> {
    match meta {
        Some(m) => Some(m.properties.deep_view()),
        None => None,
    }
}

/// The metadata shown with a match: the matched model's properties followed
/// by the reference model's, renamed, each part present when that model has
/// metadata; nothing when neither has.
pub fn combine_metadata(matching: Option<ModelMetadata>, reference: &Option<ModelMetadata>) -> (r:
    Option<ModelMetadata>)
    ensures
        metadata_items(r) == combined_items(metadata_items(matching), metadata_items(*reference)),
{
    if matching.is_none() && reference.is_none() {
        return None;
    }
    let mut combined = match &matching {
        Some(m) => ModelMetadata::new(duplicate_items(&m.properties)),
        None => ModelMetadata::new(Vec::new()),
    };
    let ghost start = combined.properties.deep_view();
    assert(start == match metadata_items(matching) {
        Some(items) => items,
        None => Seq::<MetadataItemView>::empty(),
    });
    match reference {
        Some(rf) => {
            let mut i: usize = 0;
            while i < rf.properties.len()
                invariant
                    i <= rf.properties.len(),
                    combined.properties.deep_view() == start + reference_items(
                        rf.properties.deep_view(),
                    ).take(i as int),
                decreases rf.properties.len() - i,
            {
                let item = &rf.properties[i];
                let renamed = ModelMetadataItem::new(
                    item.key_id,
                    String::from_str("reference.").concat(item.name.as_str()),
                    item.value.clone(),
                );
                combined.add(&renamed);
                proof {
                    assert(renamed@ == reference_items(rf.properties.deep_view())[i as int]);
                    assert(combined.properties.deep_view() =~= start + reference_items(
                        rf.properties.deep_view(),
                    ).take(i + 1));
                }
                i += 1;
            }
            assert(reference_items(rf.properties.deep_view()).take(rf.properties.len() as int)
                =~= reference_items(rf.properties.deep_view()));
            if matching.is_none() {
                assert(start + reference_items(rf.properties.deep_view()) =~= reference_items(
                    rf.properties.deep_view(),
                ));
            }
        },
        None => {},
    }
    Some(combined)
}

/// Index of the first property whose name equals the given one up to ASCII
/// case.
pub open spec fn first_property_named(props: Seq<Property>, name: Seq<char>) -> Option<int> {
    if exists|i: int| 0 <= i < props.len() && chars_eq_ignore_ascii_case(props[i].name@, name) {
        Some(choose|i: int|
            0 <= i < props.len() && chars_eq_ignore_ascii_case(props[i].name@, name) && forall|j: int|
                0 <= j < i ==> !chars_eq_ignore_ascii_case(props[j].name@, name))
    } else {
        None
    }
}

/// The property found for a name is the first whose name equals it up to
/// ASCII case; none is found exactly when no property's name does.
pub proof fn lemma_first_property_named_is_first(props: Seq<Property>, name: Seq<char>)
    ensures
        first_property_named(props, name) is None <==> forall|k: int|
            0 <= k < props.len() ==> !chars_eq_ignore_ascii_case((#[trigger] props[k]).name@, name),
        first_property_named(props, name) matches Some(i) ==> {
            &&& 0 <= i < props.len()
            &&& chars_eq_ignore_ascii_case(props[i].name@, name)
            &&& forall|j: int| 0 <= j < i ==> !chars_eq_ignore_ascii_case((#[trigger] props[j]).name@, name)
        },
{
    if exists|k: int| 0 <= k < props.len() && chars_eq_ignore_ascii_case(props[k].name@, name) {
        let k = choose|k: int| 0 <= k < props.len() && chars_eq_ignore_ascii_case(props[k].name@, name);
        lemma_first_property_exists(props, name, k);
    }
}

proof fn lemma_first_property_exists(props: Seq<Property>, name: Seq<char>, k: int)
    requires
        0 <= k < props.len(),
        chars_eq_ignore_ascii_case(props[k].name@, name),
    ensures
        exists|i: int|
            0 <= i < props.len() && chars_eq_ignore_ascii_case(props[i].name@, name) && forall|j: int|
                0 <= j < i ==> !chars_eq_ignore_ascii_case(props[j].name@, name),
    decreases k,
{
    if exists|j: int| 0 <= j < k && chars_eq_ignore_ascii_case(props[j].name@, name) {
        let j = choose|j: int| 0 <= j < k && chars_eq_ignore_ascii_case(props[j].name@, name);
        lemma_first_property_exists(props, name, j);
    } else {
        assert(0 <= k < props.len() && chars_eq_ignore_ascii_case(props[k].name@, name) && forall|j: int|
            0 <= j < k ==> !chars_eq_ignore_ascii_case(props[j].name@, name));
    }
}

/// The first property key with the given name, ignoring ASCII case.
pub fn find_property(properties: &PropertyCollection, name: &str) -> (found: Option<Property>)
    ensures
        match found {
            Some(p) => first_property_named(properties.properties@, name@) matches Some(i) && p.id
                == properties.properties@[i].id && p.name@ == properties.properties@[i].name@,
            None => first_property_named(properties.properties@, name@) is None,
        },
{
    let mut i: usize = 0;
    while i < properties.properties.len()
        invariant
            i <= properties.properties@.len(),
            forall|j: int|
                0 <= j < i ==> !chars_eq_ignore_ascii_case(properties.properties@[j].name@, name@),
        decreases properties.properties@.len() - i,
    {
        let p = &properties.properties[i];
        if eq_ignore_ascii_case(p.name.as_str(), name) {
            let ghost k = first_property_named(properties.properties@, name@)->0;
            proof {
                if k < i {
                } else if k > i {
                }
            }
            return Some(Property { id: p.id, name: p.name.clone() });
        }
        i += 1;
    }
    None
}

/// The classification property a match is tagged with.
pub fn classification_item(property: &Property, classification: &str, tag: &str) -> (item:
    ModelMetadataItem)
    ensures
        item.key_id == property.id,
        item.name@ == classification@,
        item.value@ == tag@,
{
    ModelMetadataItem::new(property.id, String::from_str(classification), String::from_str(tag))
}

/// Index of the first model with the given UUID.
pub open spec fn first_with_uuid(models: Seq<VisuallyMatchedModel>, uuid: u128) -> Option<int> {
    if exists|i: int| 0 <= i < models.len() && models[i].uuid == uuid {
        Some(choose|i: int|
            0 <= i < models.len() && models[i].uuid == uuid && forall|j: int| 0 <= j < i ==> models[j].uuid != uuid)
    } else {
        None
    }
}

/// Visual matches as shown: at most ten, leaving out the first one that is
/// the reference model itself.
pub open spec fn trimmed_visual(models: Seq<VisuallyMatchedModel>, uuid: u128) -> Seq<VisuallyMatchedModel> {
    let without = match first_with_uuid(models, uuid) {
        Some(i) => models.remove(i),
        None => models,
    };
    if without.len() > 10 {
        without.take(10)
    } else {
        without
    }
}

proof fn lemma_first_with_uuid_exists(models: Seq<VisuallyMatchedModel>, uuid: u128, k: int)
    requires
        0 <= k < models.len(),
        models[k].uuid == uuid,
    ensures
        exists|i: int|
            0 <= i < models.len() && models[i].uuid == uuid && forall|j: int| 0 <= j < i ==> models[j].uuid != uuid,
    decreases k,
{
    if exists|j: int| 0 <= j < k && models[j].uuid == uuid {
        let j = choose|j: int| 0 <= j < k && models[j].uuid == uuid;
        lemma_first_with_uuid_exists(models, uuid, j);
    } else {
        assert(0 <= k < models.len() && models[k].uuid == uuid && forall|j: int| 0 <= j < k ==> models[j].uuid != uuid);
    }
}

/// Trimming visual matches keeps their order, leaves out the first match
/// that is the reference model (and only that one), and keeps at most ten:
/// with no reference among them, the first ten (or all); with the first
/// reference at `f`, the matches before `f` and then those after it.
pub proof fn lemma_trimmed_visual_drops_reference_keeps_ten(models: Seq<VisuallyMatchedModel>, uuid: u128)
    ensures
        ({
            let t = trimmed_visual(models, uuid);
            let found = exists|k: int| 0 <= k < models.len() && (#[trigger] models[k]).uuid == uuid;
            let rest = if found { models.len() - 1 } else { models.len() as int };
            &&& t.len() == if rest > 10 { 10 } else { rest }
            &&& !found ==> forall|i: int| 0 <= i < t.len() ==> #[trigger] t[i] == models[i]
            &&& found ==> exists|f: int|
                0 <= f < models.len() && models[f].uuid == uuid && (forall|j: int|
                    0 <= j < f ==> (#[trigger] models[j]).uuid != uuid) && forall|i: int|
                    0 <= i < t.len() ==> #[trigger] t[i] == if i < f { models[i] } else { models[i + 1] }
        }),
{
    if exists|k: int| 0 <= k < models.len() && (#[trigger] models[k]).uuid == uuid {
        let k = choose|k: int| 0 <= k < models.len() && (#[trigger] models[k]).uuid == uuid;
        lemma_first_with_uuid_exists(models, uuid, k);
        let f = first_with_uuid(models, uuid)->0;
        let t = trimmed_visual(models, uuid);
        assert forall|i: int| 0 <= i < t.len() implies #[trigger] t[i] == if i < f { models[i] } else { models[i + 1] } by {
            assert(t[i] == models.remove(f)[i]);
        }
    }
}

/// At most ten visual matches, leaving out the first one that is the
/// reference model itself.
pub fn trim_visual_matches(matches: Vec<VisuallyMatchedModel>, uuid: u128) -> (r: Vec<
    VisuallyMatchedModel,
>)
    ensures
        r@ == trimmed_visual(matches@, uuid),
{
    let mut list = matches;
    let mut i: usize = 0;
    while i < list.len()
        invariant
            i <= list@.len(),
            list@ == matches@,
            forall|j: int| 0 <= j < i ==> list@[j].uuid != uuid,
        ensures
            i <= list@.len(),
            list@ == matches@,
            forall|j: int| 0 <= j < i ==> list@[j].uuid != uuid,
            i < list@.len() ==> list@[i as int].uuid == uuid,
        decreases list@.len() - i,
    {
        if list[i].uuid == uuid {
            break;
        }
        i += 1;
    }
    let ghost first = first_with_uuid(matches@, uuid);
    if i < list.len() {
        proof {
            let k = first->0;
            if k < i {
            } else if k > i {
            }
        }
        list.remove(i);
    }
    if list.len() > 10 {
        list.truncate(10);
    }
    list
}

/// Whether a model should be reprocessed when the status report repairs
/// models: it has not finished (and has 3D data), and is not an assembly
/// unless assemblies are included.
pub fn needs_reprocess(model: &Model, force_fix: bool, ignore_assemblies: bool) -> (r: bool)
    ensures
        r == (force_fix && !chars_eq_ignore_ascii_case(model.state@, "FINISHED"@)
            && !chars_eq_ignore_ascii_case(model.state@, "NO 3D DATA"@) && (!model.is_assembly
            || !ignore_assemblies)),
{
    force_fix && !eq_ignore_ascii_case(model.state.as_str(), "FINISHED") && !eq_ignore_ascii_case(
        model.state.as_str(),
        "NO 3D DATA",
    ) && (!model.is_assembly || !ignore_assemblies)
}


/// Index of the last folder with the given id, if any.
pub open spec fn last_folder_with_id(folders: Seq<FolderView>, id: u32) -> Option<int> {
    if exists|i: int| 0 <= i < folders.len() && folders[i].id == id {
        Some(choose|i: int|
            0 <= i < folders.len() && folders[i].id == id && forall|j: int|
                i < j < folders.len() ==> folders[j].id != id)
    } else {
        None
    }
}

/// A status record as plain values.
pub struct StatusView {
    pub folder_id: u32,
    pub folder_name: Seq<char>,
    pub file_type: Seq<char>,
    pub state: Seq<char>,
    pub count: nat,
}

pub open spec fn status_view(r: ModelStatusRecord) -> StatusView {
    StatusView {
        folder_id: r.folder_id,
        folder_name: r.folder_name@,
        file_type: r.file_type@,
        state: r.state@,
        count: r.count as nat,
    }
}

/// A record counts the models of its folder, file type and state; file
/// type and state are compared in upper case.
pub open spec fn counts_model(r: StatusView, m: ModelView) -> bool {
    &&& r.folder_id == m.folder_id
    &&& r.file_type == unicode_upper(m.file_type)
    &&& r.state == unicode_upper(m.state)
}

/// Index of the first record that counts the model, if any.
pub open spec fn first_counting(records: Seq<StatusView>, m: ModelView) -> Option<int> {
    if exists|i: int| 0 <= i < records.len() && counts_model(records[i], m) {
        Some(choose|i: int|
            0 <= i < records.len() && counts_model(records[i], m) && forall|j: int|
                0 <= j < i ==> !counts_model(records[j], m))
    } else {
        None
    }
}

/// The records counting models, one per folder, upper-case file type and
/// upper-case state, in order of first appearance; a record carries the
/// name of the last folder with its id.
pub open spec fn tally(models: Seq<ModelView>, folders: Seq<FolderView>) -> Seq<StatusView>
    decreases models.len(),
{
    if models.len() == 0 {
        Seq::empty()
    } else {
        let prev = tally(models.drop_last(), folders);
        let m = models.last();
        match first_counting(prev, m) {
            Some(i) => prev.update(i, StatusView { count: prev[i].count + 1, ..prev[i] }),
            None => prev.push(
                StatusView {
                    folder_id: m.folder_id,
                    folder_name: folders[last_folder_with_id(folders, m.folder_id)->0].name,
                    file_type: unicode_upper(m.file_type),
                    state: unicode_upper(m.state),
                    count: 1,
                },
            ),
        }
    }
}

/// The number of models the records count together.
pub open spec fn total_count(records: Seq<StatusView>) -> nat
    decreases records.len(),
{
    if records.len() == 0 {
        0
    } else {
        total_count(records.drop_last()) + records.last().count
    }
}

/// The first record that counts a model is one that counts it, and no
/// earlier one does.
pub proof fn lemma_first_counting(records: Seq<StatusView>, m: ModelView, k: int)
    requires
        0 <= k < records.len(),
        counts_model(records[k], m),
    ensures
        first_counting(records, m) matches Some(i) && 0 <= i <= k && counts_model(records[i], m)
            && forall|j: int| 0 <= j < i ==> !counts_model(#[trigger] records[j], m),
    decreases k,
{
    if exists|j: int| 0 <= j < k && counts_model(records[j], m) {
        let j = choose|j: int| 0 <= j < k && counts_model(records[j], m);
        lemma_first_counting(records, m, j);
    } else {
        assert(0 <= k < records.len() && counts_model(records[k], m) && forall|j: int|
            0 <= j < k ==> !counts_model(records[j], m));
    }
}

/// Counting one more model in one record counts one more in all.
pub proof fn lemma_total_count_bump(records: Seq<StatusView>, i: int)
    requires
        0 <= i < records.len(),
    ensures
        total_count(records.update(i, StatusView { count: records[i].count + 1, ..records[i] }))
            == total_count(records) + 1,
    decreases records.len(),
{
    let bumped = records.update(i, StatusView { count: records[i].count + 1, ..records[i] });
    if i == records.len() - 1 {
        assert(bumped.drop_last() =~= records.drop_last());
    } else {
        lemma_total_count_bump(records.drop_last(), i);
        assert(bumped.drop_last() =~= records.drop_last().update(
            i,
            StatusView { count: records[i].count + 1, ..records[i] },
        ));
    }
}

/// Every model is counted once: the counts of the status records add up
/// to the number of models.
pub proof fn lemma_tally_counts_every_model(models: Seq<ModelView>, folders: Seq<FolderView>)
    ensures
        total_count(tally(models, folders)) == models.len(),
    decreases models.len(),
{
    if models.len() > 0 {
        lemma_tally_counts_every_model(models.drop_last(), folders);
        let prev = tally(models.drop_last(), folders);
        match first_counting(prev, models.last()) {
            Some(i) => {
                let w = choose|w: int| 0 <= w < prev.len() && counts_model(prev[w], models.last());
                lemma_first_counting(prev, models.last(), w);
                lemma_total_count_bump(prev, i);
            },
            None => {
                let r = tally(models, folders);
                assert(r.drop_last() =~= prev);
            },
        }
    }
}

/// No two status records count the same models: they differ in folder,
/// file type or state.
pub proof fn lemma_tally_records_distinct(models: Seq<ModelView>, folders: Seq<FolderView>)
    ensures
        forall|i: int, j: int|
            0 <= i < j < tally(models, folders).len() ==> {
                let a = #[trigger] tally(models, folders)[i];
                let b = #[trigger] tally(models, folders)[j];
                a.folder_id != b.folder_id || a.file_type != b.file_type || a.state != b.state
            },
    decreases models.len(),
{
    if models.len() > 0 {
        lemma_tally_records_distinct(models.drop_last(), folders);
        let prev = tally(models.drop_last(), folders);
        let m = models.last();
        let t = tally(models, folders);
        match first_counting(prev, m) {
            Some(k) => {
                let w = choose|w: int| 0 <= w < prev.len() && counts_model(prev[w], m);
                lemma_first_counting(prev, m, w);
                assert forall|i: int, j: int| 0 <= i < j < t.len() implies {
                    let a = #[trigger] t[i];
                    let b = #[trigger] t[j];
                    a.folder_id != b.folder_id || a.file_type != b.file_type || a.state != b.state
                } by {
                    assert(prev[i].folder_id == t[i].folder_id && prev[i].file_type == t[i].file_type
                        && prev[i].state == t[i].state);
                    assert(prev[j].folder_id == t[j].folder_id && prev[j].file_type == t[j].file_type
                        && prev[j].state == t[j].state);
                }
            },
            None => {
                assert forall|i: int, j: int| 0 <= i < j < t.len() implies {
                    let a = #[trigger] t[i];
                    let b = #[trigger] t[j];
                    a.folder_id != b.folder_id || a.file_type != b.file_type || a.state != b.state
                } by {
                    if j == prev.len() {
                        assert(!counts_model(prev[i], m));
                    } else {
                        assert(t[i] == prev[i] && t[j] == prev[j]);
                    }
                }
            },
        }
    }
}

/// The number of models of a folder whose file type and state, in upper
/// case, are the given ones.
pub open spec fn models_with(models: Seq<ModelView>, folder_id: u32, file_type: Seq<char>, state: Seq<char>) -> nat
    decreases models.len(),
{
    if models.len() == 0 {
        0
    } else {
        let m = models.last();
        models_with(models.drop_last(), folder_id, file_type, state) + if m.folder_id == folder_id
            && unicode_upper(m.file_type) == file_type && unicode_upper(m.state) == state {
            1nat
        } else {
            0nat
        }
    }
}

/// Some model of the folder has the file type and state, when any is counted.
proof fn lemma_models_with_positive(models: Seq<ModelView>, folder_id: u32, file_type: Seq<char>, state: Seq<char>)
    requires
        models_with(models, folder_id, file_type, state) > 0,
    ensures
        exists|j: int|
            0 <= j < models.len() && (#[trigger] models[j]).folder_id == folder_id
                && unicode_upper(models[j].file_type) == file_type && unicode_upper(models[j].state) == state,
    decreases models.len(),
{
    let m = models.last();
    if m.folder_id == folder_id && unicode_upper(m.file_type) == file_type && unicode_upper(m.state) == state {
        assert(models[models.len() - 1] == m);
    } else {
        lemma_models_with_positive(models.drop_last(), folder_id, file_type, state);
        let j = choose|j: int|
            0 <= j < models.len() - 1 && (#[trigger] models.drop_last()[j]).folder_id == folder_id
                && unicode_upper(models.drop_last()[j].file_type) == file_type && unicode_upper(models.drop_last()[j].state) == state;
        assert(models.drop_last()[j] == models[j]);
    }
}

/// The status report counts each model exactly where it belongs: every
/// record's count is the number of models of the record's folder whose
/// upper-case file type and upper-case state are the record's, and every
/// model has a record of its folder, upper-case file type and upper-case
/// state.
pub proof fn lemma_tally_counts_by_folder_type_and_state(models: Seq<ModelView>, folders: Seq<FolderView>)
    ensures
        forall|k: int|
            0 <= k < tally(models, folders).len() ==> {
                let r = #[trigger] tally(models, folders)[k];
                r.count == models_with(models, r.folder_id, r.file_type, r.state)
            },
        forall|j: int|
            0 <= j < models.len() ==> exists|k: int|
                0 <= k < tally(models, folders).len() && {
                    let r = #[trigger] tally(models, folders)[k];
                    &&& r.folder_id == (#[trigger] models[j]).folder_id
                    &&& r.file_type == unicode_upper(models[j].file_type)
                    &&& r.state == unicode_upper(models[j].state)
                },
    decreases models.len(),
{
    if models.len() > 0 {
        let pm = models.drop_last();
        lemma_tally_counts_by_folder_type_and_state(pm, folders);
        lemma_tally_records_distinct(pm, folders);
        let prev = tally(pm, folders);
        let m = models.last();
        let t = tally(models, folders);
        assert(models[models.len() - 1] == m);
        assert forall|j: int| 0 <= j < pm.len() implies #[trigger] pm[j] == models[j] by {}
        match first_counting(prev, m) {
            Some(i) => {
                let w = choose|w: int| 0 <= w < prev.len() && counts_model(prev[w], m);
                lemma_first_counting(prev, m, w);
                assert forall|k: int| 0 <= k < t.len() implies {
                    let r = #[trigger] t[k];
                    r.count == models_with(models, r.folder_id, r.file_type, r.state)
                } by {
                    let r = prev[k];
                    assert(t[k].folder_id == r.folder_id && t[k].file_type == r.file_type && t[k].state == r.state);
                    if k != i {
                        if counts_model(r, m) {
                            if k < i {
                                assert(!counts_model(prev[k], m));
                            } else {
                                assert(prev[i].folder_id == r.folder_id && prev[i].file_type == r.file_type
                                    && prev[i].state == r.state);
                            }
                        }
                        assert(models_with(models, r.folder_id, r.file_type, r.state)
                            == models_with(pm, r.folder_id, r.file_type, r.state));
                    }
                }
                assert forall|j: int| 0 <= j < models.len() implies exists|k: int|
                    0 <= k < t.len() && {
                        let r = #[trigger] t[k];
                        &&& r.folder_id == (#[trigger] models[j]).folder_id
                        &&& r.file_type == unicode_upper(models[j].file_type)
                        &&& r.state == unicode_upper(models[j].state)
                    } by {
                    if j == models.len() - 1 {
                        assert(t[i].folder_id == prev[i].folder_id);
                    } else {
                        assert(pm[j] == models[j]);
                        let k = choose|k: int| 0 <= k < prev.len() && {
                            let r = #[trigger] prev[k];
                            &&& r.folder_id == (#[trigger] pm[j]).folder_id
                            &&& r.file_type == unicode_upper(pm[j].file_type)
                            &&& r.state == unicode_upper(pm[j].state)
                        };
                        assert(t[k].folder_id == prev[k].folder_id && t[k].file_type == prev[k].file_type
                            && t[k].state == prev[k].state);
                    }
                }
            },
            None => {
                assert(t == prev.push(t[t.len() - 1]));
                let nr = t[t.len() - 1];
                if models_with(pm, nr.folder_id, nr.file_type, nr.state) > 0 {
                    lemma_models_with_positive(pm, nr.folder_id, nr.file_type, nr.state);
                    let j = choose|j: int|
                        0 <= j < pm.len() && (#[trigger] pm[j]).folder_id == nr.folder_id
                            && unicode_upper(pm[j].file_type) == nr.file_type && unicode_upper(pm[j].state) == nr.state;
                    let k = choose|k: int| 0 <= k < prev.len() && {
                        let r = #[trigger] prev[k];
                        &&& r.folder_id == (#[trigger] pm[j]).folder_id
                        &&& r.file_type == unicode_upper(pm[j].file_type)
                        &&& r.state == unicode_upper(pm[j].state)
                    };
                    assert(counts_model(prev[k], m));
                    assert(false);
                }
                assert forall|k: int| 0 <= k < t.len() implies {
                    let r = #[trigger] t[k];
                    r.count == models_with(models, r.folder_id, r.file_type, r.state)
                } by {
                    if k < prev.len() {
                        assert(t[k] == prev[k]);
                        assert(!counts_model(prev[k], m));
                    }
                }
                assert forall|j: int| 0 <= j < models.len() implies exists|k: int|
                    0 <= k < t.len() && {
                        let r = #[trigger] t[k];
                        &&& r.folder_id == (#[trigger] models[j]).folder_id
                        &&& r.file_type == unicode_upper(models[j].file_type)
                        &&& r.state == unicode_upper(models[j].state)
                    } by {
                    if j == models.len() - 1 {
                        assert(t[t.len() - 1].folder_id == m.folder_id);
                    } else {
                        assert(pm[j] == models[j]);
                        let k = choose|k: int| 0 <= k < prev.len() && {
                            let r = #[trigger] prev[k];
                            &&& r.folder_id == (#[trigger] pm[j]).folder_id
                            &&& r.file_type == unicode_upper(pm[j].file_type)
                            &&& r.state == unicode_upper(pm[j].state)
                        };
                        assert(t[k] == prev[k]);
                    }
                }
            },
        }
    }
}

proof fn lemma_last_folder_exists(folders: Seq<FolderView>, id: u32, k: int)
    requires
        0 <= k < folders.len(),
        folders[k].id == id,
    ensures
        exists|i: int|
            0 <= i < folders.len() && folders[i].id == id && forall|j: int| i < j < folders.len() ==> folders[j].id != id,
    decreases folders.len() - k,
{
    if exists|j: int| k < j < folders.len() && folders[j].id == id {
        let j = choose|j: int| k < j < folders.len() && folders[j].id == id;
        lemma_last_folder_exists(folders, id, j);
    } else {
        assert(0 <= k < folders.len() && folders[k].id == id && forall|j: int| k < j < folders.len() ==> folders[j].id != id);
    }
}

/// Each status record carries the name of the last listed folder with its
/// id.
pub proof fn lemma_tally_names_last_folder(models: Seq<ModelView>, folders: Seq<FolderView>)
    requires
        forall|i: int| 0 <= i < models.len() ==> exists|k: int|
            0 <= k < folders.len() && (#[trigger] folders[k]).id == (#[trigger] models[i]).folder_id,
    ensures
        forall|r: int|
            0 <= r < tally(models, folders).len() ==> exists|k: int|
                0 <= k < folders.len() && (#[trigger] folders[k]).id == (#[trigger] tally(models, folders)[r]).folder_id
                    && folders[k].name == tally(models, folders)[r].folder_name && forall|j: int|
                    k < j < folders.len() ==> (#[trigger] folders[j]).id != tally(models, folders)[r].folder_id,
    decreases models.len(),
{
    if models.len() > 0 {
        let pm = models.drop_last();
        assert forall|i: int| 0 <= i < pm.len() implies exists|k: int|
            0 <= k < folders.len() && (#[trigger] folders[k]).id == (#[trigger] pm[i]).folder_id by {
            assert(pm[i] == models[i]);
        }
        lemma_tally_names_last_folder(pm, folders);
        let prev = tally(pm, folders);
        let t = tally(models, folders);
        let m = models.last();
        assert(models[models.len() - 1] == m);
        match first_counting(prev, m) {
            Some(i) => {
                let w = choose|w: int| 0 <= w < prev.len() && counts_model(prev[w], m);
                lemma_first_counting(prev, m, w);
                assert forall|r: int| 0 <= r < t.len() implies exists|k: int|
                    0 <= k < folders.len() && (#[trigger] folders[k]).id == (#[trigger] t[r]).folder_id
                        && folders[k].name == t[r].folder_name && forall|j: int|
                        k < j < folders.len() ==> (#[trigger] folders[j]).id != t[r].folder_id by {
                    assert(t[r].folder_id == prev[r].folder_id && t[r].folder_name == prev[r].folder_name);
                }
            },
            None => {
                let k0 = choose|k: int| 0 <= k < folders.len() && (#[trigger] folders[k]).id == m.folder_id;
                lemma_last_folder_exists(folders, m.folder_id, k0);
                assert forall|r: int| 0 <= r < t.len() implies exists|k: int|
                    0 <= k < folders.len() && (#[trigger] folders[k]).id == (#[trigger] t[r]).folder_id
                        && folders[k].name == t[r].folder_name && forall|j: int|
                        k < j < folders.len() ==> (#[trigger] folders[j]).id != t[r].folder_id by {
                    if r < prev.len() {
                        assert(t[r] == prev[r]);
                    } else {
                        let k = last_folder_with_id(folders, m.folder_id)->0;
                        assert(folders[k].id == m.folder_id);
                    }
                }
            },
        }
    }
}

/// The name of the last folder with the given id.
fn last_folder_name(folders: &ListOfFolders, id: u32) -> (name: String)
    requires
        last_folder_with_id(folders.spec_folders(), id) is Some,
    ensures
        name@ == folders.spec_folders()[last_folder_with_id(folders.spec_folders(), id)->0].name,
{
    let ghost fs = folders.spec_folders();
    let mut i: usize = folders.folders.len();
    while i > 0
        invariant
            i <= folders.folders@.len(),
            fs == folders.spec_folders(),
            forall|j: int| i <= j < fs.len() ==> fs[j].id != id,
        decreases i,
    {
        if folders.folders[i - 1].id == id {
            proof {
                let k = last_folder_with_id(fs, id)->0;
                assert(fs[i - 1].id == id);
                if k < i - 1 {
                } else if k > i - 1 {
                }
            }
            return folders.folders[i - 1].name.clone();
        }
        i -= 1;
    }
    proof {
        let k = last_folder_with_id(fs, id)->0;
        assert(fs[k].id == id);
    }
    String::new()
}

/// Position of the first record that counts a model with the given folder
/// and upper-case file type and state, or the number of records.
fn find_record(
    stats: &Vec<ModelStatusRecord>,
    folder_id: u32,
    file_type: &String,
    state: &String,
    Ghost(m): Ghost<ModelView>,
) -> (j: usize)
    requires
        folder_id == m.folder_id,
        file_type@ == unicode_upper(m.file_type),
        state@ == unicode_upper(m.state),
    ensures
        j <= stats@.len(),
        forall|k: int| 0 <= k < j ==> !counts_model(status_view(#[trigger] stats@[k]), m),
        j < stats@.len() ==> counts_model(status_view(stats@[j as int]), m),
{
    let mut j: usize = 0;
    while j < stats.len()
        invariant
            j <= stats@.len(),
            folder_id == m.folder_id,
            file_type@ == unicode_upper(m.file_type),
            state@ == unicode_upper(m.state),
            forall|k: int| 0 <= k < j ==> !counts_model(status_view(#[trigger] stats@[k]), m),
        decreases stats@.len() - j,
    {
        let r = &stats[j];
        if r.folder_id == folder_id && str_eq(r.file_type.as_str(), file_type.as_str()) && str_eq(
            r.state.as_str(),
            state.as_str(),
        ) {
            return j;
        }
        j += 1;
    }
    j
}

/// Counts models by folder, file type and state.
pub fn tenant_stats(models: &Vec<Model>, folders: &ListOfFolders) -> (report: EnvironmentStatusReport)
    requires
        forall|i: int|
            0 <= i < models@.len() ==> last_folder_with_id(
                folders.spec_folders(),
                (#[trigger] models@[i]).folder_id,
            ) is Some,
    ensures
        report.stats@.len() == tally(models.deep_view(), folders.spec_folders()).len(),
        forall|i: int|
            0 <= i < report.stats@.len() ==> status_view(#[trigger] report.stats@[i]) == tally(
                models.deep_view(),
                folders.spec_folders(),
            )[i],
{
    let ghost ms = models.deep_view();
    let ghost fs = folders.spec_folders();
    let mut stats: Vec<ModelStatusRecord> = Vec::new();
    let mut i: usize = 0;
    while i < models.len()
        invariant
            i <= models@.len(),
            ms == models.deep_view(),
            fs == folders.spec_folders(),
            forall|k: int|
                0 <= k < models@.len() ==> last_folder_with_id(fs, (#[trigger] models@[k]).folder_id) is Some,
            stats@.len() == tally(ms.take(i as int), fs).len(),
            forall|k: int|
                0 <= k < stats@.len() ==> status_view(#[trigger] stats@[k]) == tally(
                    ms.take(i as int),
                    fs,
                )[k],
            forall|k: int| 0 <= k < stats@.len() ==> (#[trigger] stats@[k]).count <= i,
        decreases models@.len() - i,
    {
        let m = &models[i];
        let ghost prev = tally(ms.take(i as int), fs);
        proof {
            assert(ms.take(i + 1).drop_last() =~= ms.take(i as int));
            assert(ms.take(i + 1).last() == m@);
            assert(ms[i as int] == m@);
        }
        let file_type = to_uppercase(m.file_type.as_str());
        let state = to_uppercase(m.state.as_str());
        let j = find_record(&stats, m.folder_id, &file_type, &state, Ghost(m@));
        proof {
            assert forall|k: int| 0 <= k < j implies !counts_model(prev[k], m@) by {
                assert(status_view(stats@[k]) == prev[k]);
            }
            if j < stats@.len() {
                assert(status_view(stats@[j as int]) == prev[j as int]);
            }
        }
        if j < stats.len() {
            proof {
                let f = first_counting(prev, m@)->0;
                if f < j {
                } else if f > j {
                }
            }
            let old_record = &stats[j];
            let record = ModelStatusRecord::new(
                old_record.folder_id,
                old_record.folder_name.clone(),
                old_record.file_type.clone(),
                old_record.state.clone(),
                old_record.count + 1,
            );
            let ghost before = stats@;
            stats.set(j, record);
            proof {
                let t = tally(ms.take(i + 1), fs);
                assert forall|k: int| 0 <= k < stats@.len() implies status_view(#[trigger] stats@[k])
                    == t[k] by {
                    if k != j {
                        assert(stats@[k] == before[k]);
                    }
                }
            }
        } else {
            assert(first_counting(prev, m@) is None);
            assert(last_folder_with_id(fs, models@[i as int].folder_id) is Some);
            let name = last_folder_name(folders, m.folder_id);
            let record = ModelStatusRecord::new(m.folder_id, name, file_type, state, 1);
            let ghost before = stats@;
            stats.push(record);
            proof {
                let t = tally(ms.take(i + 1), fs);
                assert forall|k: int| 0 <= k < stats@.len() implies status_view(#[trigger] stats@[k])
                    == t[k] by {
                    if k < before.len() {
                        assert(stats@[k] == before[k]);
                    }
                }
            }
        }
        i += 1;
    }
    proof {
        assert(ms.take(models@.len() as int) =~= ms);
    }
    let mut report = EnvironmentStatusReport::new();
    report.stats = stats;
    report
}

/// The distinct ids of folders, in order of first appearance.
pub open spec fn distinct_ids(folders: Seq<FolderView>) -> Seq<u32>
    decreases folders.len(),
{
    if folders.len() == 0 {
        Seq::empty()
    } else {
        let prev = distinct_ids(folders.drop_last());
        if prev.contains(folders.last().id) {
            prev
        } else {
            prev.push(folders.last().id)
        }
    }
}

/// The ids of folders name every folder's id once: each id is that of
/// some folder, every folder's id is among them, and no id repeats.
pub proof fn lemma_distinct_ids_name_each_folder_once(folders: Seq<FolderView>)
    ensures
        forall|x: u32| #[trigger] distinct_ids(folders).contains(x) <==> exists|k: int|
            0 <= k < folders.len() && (#[trigger] folders[k]).id == x,
        forall|i: int, j: int|
            0 <= i < j < distinct_ids(folders).len() ==> #[trigger] distinct_ids(folders)[i] != #[trigger] distinct_ids(
                folders,
            )[j],
        distinct_ids(folders).len() <= folders.len(),
    decreases folders.len(),
{
    if folders.len() > 0 {
        let init = folders.drop_last();
        let prev = distinct_ids(init);
        let d = distinct_ids(folders);
        let last = folders.last();
        lemma_distinct_ids_name_each_folder_once(init);
        assert(folders[folders.len() - 1] == last);
        assert forall|x: u32| #[trigger] d.contains(x) <==> exists|k: int|
            0 <= k < folders.len() && (#[trigger] folders[k]).id == x by {
            if exists|k: int| 0 <= k < folders.len() && (#[trigger] folders[k]).id == x {
                let k = choose|k: int| 0 <= k < folders.len() && (#[trigger] folders[k]).id == x;
                if k < init.len() {
                    assert(init[k] == folders[k]);
                    assert(prev.contains(x));
                    if !prev.contains(last.id) {
                        let q = choose|q: int| 0 <= q < prev.len() && prev[q] == x;
                        assert(d[q] == x);
                    }
                } else if !prev.contains(last.id) {
                    assert(d[prev.len() as int] == x);
                }
            }
            if prev.contains(x) {
                let k = choose|k: int| 0 <= k < init.len() && (#[trigger] init[k]).id == x;
                assert(folders[k] == init[k]);
            }
            if d.contains(x) && !prev.contains(x) {
                let q = choose|q: int| 0 <= q < d.len() && d[q] == x;
                assert(q == prev.len());
            }
        }
        if !prev.contains(last.id) {
            assert forall|i: int, j: int| 0 <= i < j < d.len() implies #[trigger] d[i] != #[trigger] d[j] by {
                if j == prev.len() {
                    assert(d[i] == prev[i]);
                }
            }
        }
    }
}

/// The distinct ids of the folders, in order of first appearance.
pub fn folder_ids(folders: &ListOfFolders) -> (ids: Vec<u32>)
    ensures
        ids@ == distinct_ids(folders.spec_folders()),
{
    let ghost fs = folders.spec_folders();
    let mut ids: Vec<u32> = Vec::new();
    let mut i: usize = 0;
    while i < folders.folders.len()
        invariant
            i <= folders.folders@.len(),
            fs == folders.spec_folders(),
            fs.len() == folders.folders@.len(),
            ids@ == distinct_ids(fs.take(i as int)),
        decreases folders.folders@.len() - i,
    {
        proof {
            assert(fs.take(i + 1).drop_last() =~= fs.take(i as int));
            assert(fs.take(i + 1).last() == fs[i as int]);
        }
        let id = folders.folders[i].id;
        let mut j: usize = 0;
        let mut seen = false;
        while j < ids.len()
            invariant
                j <= ids@.len(),
                !seen ==> forall|k: int| 0 <= k < j ==> ids@[k] != id,
                seen ==> ids@.contains(id),
            decreases ids@.len() - j,
        {
            if ids[j] == id {
                assert(ids@[j as int] == id);
                seen = true;
            }
            j += 1;
        }
        if !seen {
            ids.push(id);
        }
        i += 1;
    }
    assert(fs.take(fs.len() as int) =~= fs);
    ids
}

/// The folders to delete: the ids of the folders found for the wanted
/// names. When none is found the names, joined by `,`, are reported missing.
pub fn folders_to_delete(names: &Vec<String>, found: &ListOfFolders) -> (r: Result<Vec<u32>, ApiError>)
    ensures
        match r {
            Ok(ids) => ids@ == distinct_ids(found.spec_folders()) && ids@.len() > 0,
            Err(ApiError::FolderNotFound(text)) => distinct_ids(found.spec_folders()).len() == 0
                && text@ == joined(names.deep_view(), ","@),
            Err(_) => false,
        },
{
    let ids = folder_ids(found);
    if ids.len() > 0 {
        Ok(ids)
    } else {
        Err(ApiError::FolderNotFound(join_texts(names, ",")))
    }
}

/// The model with the given metadata: its properties, or none.
pub fn with_metadata(model: Model, metadata: Option<ModelMetadata>) -> (m: Model)
    ensures
        m@ == (ModelView {
            metadata: match metadata {
                Some(meta) => Some(meta.properties.deep_view()),
                None => None,
            },
            ..model@
        }),
{
    let mut model = model;
    model.metadata = match metadata {
        Some(meta) => Some(meta.properties),
        None => None,
    };
    model
}

/// Search results gathered page by page, up to a limit.
pub struct ImageSearchCollector {
    models: Vec<Model>,
    page: u32,
    max_matches: u32,
    per_page: u32,
}

impl ImageSearchCollector {
    /// The models gathered so far.
    pub closed spec fn gathered(&self) -> Seq<ModelView> {
        self.models.deep_view()
    }

    /// The page to ask for next.
    pub closed spec fn next_page(&self) -> u32 {
        self.page
    }

    /// The most results wanted.
    pub closed spec fn limit(&self) -> u32 {
        self.max_matches
    }

    /// The page size asked for.
    pub closed spec fn page_size(&self) -> u32 {
        self.per_page
    }

    /// Starts with nothing gathered, at the first page.
    pub fn new(max_matches: u32, per_page: u32) -> (c: ImageSearchCollector)
        ensures
            c.gathered() == Seq::<ModelView>::empty(),
            c.next_page() == 1,
            c.limit() == max_matches,
            c.page_size() == per_page,
    {
        let c = ImageSearchCollector { models: Vec::new(), page: 1, max_matches, per_page };
        assert(c.gathered() =~= Seq::<ModelView>::empty());
        c
    }

    /// The page to ask for next.
    pub fn page(&self) -> (p: u32)
        ensures
            p == self.next_page(),
    {
        self.page
    }

    /// Takes a page of results, keeping at most the limit, and moves to the
    /// next page. Gives whether another page is wanted: only when the page
    /// was full and fewer results than the limit are gathered.
    pub fn add_page(&mut self, page_models: Vec<Model>) -> (more: bool)
        requires
            old(self).next_page() < u32::MAX,
        ensures
            final(self).gathered() == {
                let all = old(self).gathered() + page_models.deep_view();
                if all.len() > old(self).limit() {
                    all.take(old(self).limit() as int)
                } else {
                    all
                }
            },
            final(self).gathered().len() <= final(self).limit(),
            final(self).next_page() == old(self).next_page() + 1,
            final(self).limit() == old(self).limit(),
            final(self).page_size() == old(self).page_size(),
            more == (page_models@.len() >= old(self).page_size() && final(self).gathered().len()
                < old(self).limit()),
    {
        let local_size = page_models.len();
        let ghost before = self.models.deep_view();
        let ghost added = page_models.deep_view();
        let mut page_models = page_models;
        self.models.append(&mut page_models);
        assert(self.models.deep_view() =~= before + added);
        if self.models.len() > self.max_matches as usize {
            self.models.truncate(self.max_matches as usize);
            assert(self.models.deep_view() =~= (before + added).take(self.max_matches as int));
        }
        self.page = self.page + 1;
        !(local_size < self.per_page as usize || self.models.len() >= self.max_matches as usize)
    }

    /// The models gathered.
    pub fn finish(self) -> (models: Vec<Model>)
        ensures
            models.deep_view() == self.gathered(),
    {
        self.models
    }
}

} // verus!
