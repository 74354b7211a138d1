//! The decisions of a metadata upload. Rows of a metadata file are taken one
//! at a time; for each the caller asks which properties to delete first (when
//! cleaning, all known properties of a model, once per model), which property
//! id the row's name stands for (names compare up to case, and a name not
//! known yet is created by the caller and then learned), and which change the
//! row asks for (an empty value deletes the property, any other sets it).

use vstd::prelude::*;
use crate::model::{ModelExtendedMetadataItem, ModelMetadataItemShort, PropertyCollection};
use crate::text::{unicase_eq, unicase_equal};

verus! {

/// The id of the last entry whose name equals `name` up to case.
pub open spec fn last_match(table: Seq<(Seq<char>, u64)>, name: Seq<char>) -> Option<u64>
    decreases table.len(),
{
    if table.len() == 0 {
        None
    } else if unicase_equal(table.last().0, name) {
        Some(table.last().1)
    } else {
        last_match(table.drop_last(), name)
    }
}

/// A name stands for the id of the last known name equal to it up to case,
/// and for none when no known name is.
pub proof fn lemma_last_match_is_last_name_equal_up_to_case(table: Seq<(Seq<char>, u64)>, name: Seq<char>)
    ensures
        last_match(table, name) is None <==> forall|k: int|
            0 <= k < table.len() ==> !unicase_equal(#[trigger] table[k].0, name),
        last_match(table, name) matches Some(id) ==> exists|k: int|
            0 <= k < table.len() && unicase_equal(#[trigger] table[k].0, name) && table[k].1 == id
                && forall|j: int| k < j < table.len() ==> !unicase_equal(#[trigger] table[j].0, name),
    decreases table.len(),
{
    if table.len() > 0 {
        let init = table.drop_last();
        lemma_last_match_is_last_name_equal_up_to_case(init, name);
        let n = table.len() - 1;
        assert(table[n] == table.last());
        assert forall|k: int| 0 <= k < init.len() implies #[trigger] init[k] == table[k] by {}
        if !unicase_equal(table.last().0, name) {
            if last_match(init, name) is None {
                assert forall|k: int| 0 <= k < table.len() implies !unicase_equal(#[trigger] table[k].0, name) by {
                    if k < n {
                        assert(init[k] == table[k]);
                    }
                }
            } else {
                let id = last_match(init, name)->0;
                let k = choose|k: int|
                    0 <= k < init.len() && unicase_equal(#[trigger] init[k].0, name) && init[k].1 == id
                        && forall|j: int| k < j < init.len() ==> !unicase_equal(#[trigger] init[j].0, name);
                assert(table[k] == init[k]);
                assert forall|j: int| k < j < table.len() implies !unicase_equal(#[trigger] table[j].0, name) by {
                    if j < n {
                        assert(init[j] == table[j]);
                    }
                }
            }
        }
    }
}

/// The change a row of a metadata file asks for.
pub enum PropertyChange {
    /// Remove the property from the model.
    Delete { model_uuid: u128, property_id: u64 },
    /// Set the property of the model to the item's value.
    Put { model_uuid: u128, property_id: u64, item: ModelExtendedMetadataItem },
}

/// The state of a metadata upload.
pub struct MetadataUpload {
    clean: bool,
    property_ids: Vec<u64>,
    names: Vec<(String, u64)>,
    cleaned: Vec<u128>,
}

impl MetadataUpload {
    /// Whether the properties of each model are removed before its first row.
    pub closed spec fn cleans(&self) -> bool {
        self.clean
    }

    /// The ids of the properties known when the upload started.
    pub closed spec fn initial_ids(&self) -> Seq<u64> {
        self.property_ids@
    }

    /// The names and ids known so far, oldest first.
    pub closed spec fn table(&self) -> Seq<(Seq<char>, u64)> {
        Seq::new(self.names@.len(), |i: int| (self.names@[i].0@, self.names@[i].1))
    }

    /// The models whose properties were removed already.
    pub closed spec fn cleaned_models(&self) -> Seq<u128> {
        self.cleaned@
    }

    /// Starts an upload with the properties that exist, in their order.
    pub fn new(properties: &PropertyCollection, clean: bool) -> (u: MetadataUpload)
        ensures
            u.cleans() == clean,
            u.initial_ids() == properties.properties@.map_values(|p: crate::model::Property| p.id),
            u.table() == properties.properties@.map_values(
                |p: crate::model::Property| (p.name@, p.id),
            ),
            u.cleaned_models() == Seq::<u128>::empty(),
    {
        let props = &properties.properties;
        let mut property_ids: Vec<u64> = Vec::new();
        let mut names: Vec<(String, u64)> = Vec::new();
        let mut i: usize = 0;
        while i < props.len()
            invariant
                i <= props@.len(),
                property_ids@.len() == i,
                names@.len() == i,
                forall|j: int| 0 <= j < i ==> #[trigger] property_ids@[j] == props@[j].id,
                forall|j: int|
                    0 <= j < i ==> (#[trigger] names@[j]).0@ == props@[j].name@ && names@[j].1
                        == props@[j].id,
            decreases props@.len() - i,
        {
            property_ids.push(props[i].id);
            names.push((props[i].name.clone(), props[i].id));
            i += 1;
        }
        let u = MetadataUpload { clean, property_ids, names, cleaned: Vec::new() };
        assert(u.initial_ids() =~= props@.map_values(|p: crate::model::Property| p.id));
        assert(u.table() =~= props@.map_values(|p: crate::model::Property| (p.name@, p.id)));
        u
    }

    /// The properties to delete before the first row of a model: all those
    /// known at the start when cleaning and the model was not cleaned yet,
    /// else none. The model counts as cleaned afterwards when cleaning.
    pub fn properties_to_clear(&mut self, model_uuid: u128) -> (ids: Vec<u64>)
        ensures
            final(self).cleans() == old(self).cleans(),
            final(self).initial_ids() == old(self).initial_ids(),
            final(self).table() == old(self).table(),
            ids@ == (if old(self).cleans() && !old(self).cleaned_models().contains(model_uuid) {
                old(self).initial_ids()
            } else {
                Seq::<u64>::empty()
            }),
            final(self).cleaned_models() == (if old(self).cleans() && !old(
                self,
            ).cleaned_models().contains(model_uuid) {
                old(self).cleaned_models().push(model_uuid)
            } else {
                old(self).cleaned_models()
            }),
    {
        if !self.clean {
            return Vec::new();
        }
        let mut i: usize = 0;
        while i < self.cleaned.len()
            invariant
                i <= self.cleaned@.len(),
                forall|j: int| 0 <= j < i ==> self.cleaned@[j] != model_uuid,
            decreases self.cleaned@.len() - i,
        {
            if self.cleaned[i] == model_uuid {
                assert(self.cleaned@.contains(model_uuid)) by {
                    assert(self.cleaned@[i as int] == model_uuid);
                }
                return Vec::new();
            }
            i += 1;
        }
        self.cleaned.push(model_uuid);
        let mut ids: Vec<u64> = Vec::new();
        let mut k: usize = 0;
        while k < self.property_ids.len()
            invariant
                k <= self.property_ids@.len(),
                ids@ == self.property_ids@.take(k as int),
            decreases self.property_ids@.len() - k,
        {
            ids.push(self.property_ids[k]);
            k += 1;
            assert(ids@ =~= self.property_ids@.take(k as int));
        }
        assert(ids@ =~= self.property_ids@);
        ids
    }

    /// The id of a property name: that of the last known name equal to it up
    /// to case. A name learned last is found again.
    pub fn property_id(&self, name: &str) -> (id: Option<u64>)
        ensures
            id == last_match(self.table(), name@),
            self.table().len() > 0 && self.table().last().0 == name@ ==> id == Some(
                self.table().last().1,
            ),
    {
        let ghost t = self.table();
        let mut i: usize = self.names.len();
        assert(t.take(i as int) =~= t);
        while i > 0
            invariant
                i <= self.names@.len(),
                t == self.table(),
                last_match(t, name@) == last_match(t.take(i as int), name@),
                t.len() > 0 && t.last().0 == name@ ==> i == t.len(),
            decreases i,
        {
            proof {
                assert(t.take(i as int).drop_last() =~= t.take(i - 1));
                assert(t.take(i as int).last() == t[i - 1]);
            }
            if unicase_eq(self.names[i - 1].0.as_str(), name) {
                return Some(self.names[i - 1].1);
            }
            i -= 1;
        }
        None
    }

    /// Learns the id of a property created during the upload.
    pub fn learn_property(&mut self, name: String, id: u64)
        ensures
            final(self).cleans() == old(self).cleans(),
            final(self).initial_ids() == old(self).initial_ids(),
            final(self).cleaned_models() == old(self).cleaned_models(),
            final(self).table() == old(self).table().push((name@, id)),
    {
        let ghost n = name@;
        self.names.push((name, id));
        assert(self.table() =~= old(self).table().push((n, id)));
    }
}

/// The change a row asks for, given the id of its property: an empty value
/// deletes the property of the model, any other value sets it.
pub fn change_for(row: &ModelMetadataItemShort, property_id: u64) -> (change: PropertyChange)
    ensures
        row.value@.len() == 0 ==> change == (PropertyChange::Delete {
            model_uuid: row.model_uuid,
            property_id,
        }),
        row.value@.len() > 0 ==> (change matches PropertyChange::Put { model_uuid, property_id: p, item }
            && model_uuid == row.model_uuid && p == property_id && item.model_uuid == row.model_uuid
            && item.key_id == property_id && item.name@ == row.name@ && item.value@ == row.value@),
{
    if row.value.as_str().is_empty() {
        PropertyChange::Delete { model_uuid: row.model_uuid, property_id }
    } else {
        PropertyChange::Put {
            model_uuid: row.model_uuid,
            property_id,
            item: row.to_item(property_id),
        }
    }
}

} // verus!
