//! Duplicate reports: which models to match, which matches count as
//! duplicates, and the step-by-step assembly of a report while the caller
//! fetches models and their matches from the service.

use vstd::prelude::*;
use crate::client::ClientError;
use crate::format::FormatError;
use crate::model::{
    first_folder_with_id, first_folder_with_name, lemma_first_folder_with_id, Folder, FolderView, ListOfFolders,
    MetadataItemView, Model, ModelMatch, ModelMatchReportItem, ModelMatchView, ModelView,
    SimpleDuplicatesMatchReport,
};
use crate::tables::{item_names, last_value};
use crate::text::{concat3, str_eq, uuid_text, uuid_to_string};
use crate::folders::validate_folders;
use crate::score_tables::or_empty;
use crate::model::ModelMetadataItem;
use crate::text_map::TextMap;

verus! {

/// Errors of the service operations.
#[derive(Debug, Clone)]
pub enum ApiError {
    ClientError(ClientError),
    FolderNotFound(String),
    InputOutputError(String),
    CsvError(String),
    FailedToRead(String),
    FormatError(FormatError),
}

/// The link to the side-by-side comparison of two models in the service's
/// web application.
pub open spec fn comparison_url(tenant: Seq<char>, a: u128, b: u128) -> Seq<char> {
    "https://"@ + tenant + ".physna.com/app/compare?modelAId="@ + uuid_text(a as nat)
        + "&modelBId="@ + uuid_text(b as nat)
}

/// The comparison link opens the tenant's web application on the
/// side-by-side view with the source model as model A and the matching
/// model as model B, each named by its UUID text.
pub proof fn lemma_comparison_link_names_source_then_match(tenant: Seq<char>, a: u128, b: u128)
    ensures
        comparison_url(tenant, a, b) == "https://"@ + tenant + ".physna.com/app/compare?modelAId="@ + uuid_text(
            a as nat,
        ) + "&modelBId="@ + uuid_text(b as nat),
{
}

/// Builds the comparison link of two models.
pub fn comparison_link(tenant: &str, a: u128, b: u128) -> (url: String)
    ensures
        url@ == comparison_url(tenant@, a, b),
{
    let first = uuid_to_string(a);
    let second = uuid_to_string(b);
    let head = concat3("https://", tenant, ".physna.com/app/compare?modelAId=");
    let tail = concat3(first.as_str(), "&modelBId=", second.as_str());
    head.concat(tail.as_str())
}

/// The name of the first folder with the given id, if any.
pub open spec fn folder_name_of(folders: Seq<FolderView>, id: u32) -> Option<Seq<char>> {
    match first_folder_with_id(folders, id) {
        Some(i) => Some(folders[i].name),
        None => None,
    }
}

/// Whether some kept match is of a model with this name.
pub open spec fn has_name(kept: Seq<ModelMatchView>, name: Seq<char>) -> bool {
    exists|k: int| 0 <= k < kept.len() && (#[trigger] kept[k]).model.name == name
}

/// A match may count as a duplicate of the source model: it lies in one of
/// the chosen folders when only those count, and differs from the source
/// by name or by being an assembly.
pub open spec fn duplicate_candidate(
    source: ModelView,
    m: ModelMatchView,
    folders: Seq<FolderView>,
    exclusive: bool,
) -> bool {
    &&& (!exclusive || first_folder_with_id(folders, m.model.folder_id) is Some)
    &&& (source.name != m.model.name || source.is_assembly != m.model.is_assembly)
}

/// A kept match gets the name of its folder and a comparison link.
pub open spec fn annotated(
    m: ModelMatchView,
    existing: Seq<FolderView>,
    tenant: Seq<char>,
    source_uuid: u128,
) -> ModelMatchView {
    ModelMatchView {
        model: ModelView { folder_name: folder_name_of(existing, m.model.folder_id), ..m.model },
        comparison_url: Some(comparison_url(tenant, source_uuid, m.model.uuid)),
        ..m
    }
}

/// The duplicates among the matches of a source model, in match order: each
/// candidate whose model name no earlier kept match has, annotated.
pub open spec fn duplicates(
    source: ModelView,
    source_uuid: u128,
    ms: Seq<ModelMatchView>,
    existing: Seq<FolderView>,
    folders: Seq<FolderView>,
    exclusive: bool,
    tenant: Seq<char>,
) -> Seq<ModelMatchView>
    decreases ms.len(),
{
    if ms.len() == 0 {
        Seq::empty()
    } else {
        let kept = duplicates(
            source,
            source_uuid,
            ms.drop_last(),
            existing,
            folders,
            exclusive,
            tenant,
        );
        let m = ms.last();
        if duplicate_candidate(source, m, folders, exclusive) && !has_name(kept, m.model.name) {
            kept.push(annotated(m, existing, tenant, source_uuid))
        } else {
            kept
        }
    }
}

/// The duplicates reported for a model are matches of models with distinct
/// names, each a candidate (in a chosen folder when only those count, and
/// differing from the source by name or by being an assembly), each linked
/// to its side-by-side comparison with the source, and each one of the
/// matches found.
pub proof fn lemma_duplicates_are_distinct_candidates(
    source: ModelView,
    source_uuid: u128,
    ms: Seq<ModelMatchView>,
    existing: Seq<FolderView>,
    folders: Seq<FolderView>,
    exclusive: bool,
    tenant: Seq<char>,
)
    ensures
        ({
            let kept = duplicates(source, source_uuid, ms, existing, folders, exclusive, tenant);
            &&& kept.len() <= ms.len()
            &&& forall|i: int, j: int|
                0 <= i < j < kept.len() ==> (#[trigger] kept[i]).model.name != (#[trigger] kept[j]).model.name
            &&& forall|i: int|
                0 <= i < kept.len() ==> {
                    &&& duplicate_candidate(source, #[trigger] kept[i], folders, exclusive)
                    &&& kept[i].comparison_url == Some(comparison_url(tenant, source_uuid, kept[i].model.uuid))
                    &&& exists|j: int| 0 <= j < ms.len() && kept[i] == annotated(#[trigger] ms[j], existing, tenant, source_uuid)
                }
        }),
    decreases ms.len(),
{
    if ms.len() > 0 {
        let prev = ms.drop_last();
        lemma_duplicates_are_distinct_candidates(source, source_uuid, prev, existing, folders, exclusive, tenant);
        let k0 = duplicates(source, source_uuid, prev, existing, folders, exclusive, tenant);
        let kept = duplicates(source, source_uuid, ms, existing, folders, exclusive, tenant);
        let m = ms.last();
        assert forall|i: int| 0 <= i < k0.len() implies exists|j: int|
            0 <= j < ms.len() && (#[trigger] k0[i]) == annotated(#[trigger] ms[j], existing, tenant, source_uuid) by {
            let j = choose|j: int| 0 <= j < prev.len() && k0[i] == annotated(#[trigger] prev[j], existing, tenant, source_uuid);
            assert(prev[j] == ms[j]);
        }
        if duplicate_candidate(source, m, folders, exclusive) && !has_name(k0, m.model.name) {
            assert(kept == k0.push(annotated(m, existing, tenant, source_uuid)));
            assert forall|i: int, j: int|
                0 <= i < j < kept.len() implies (#[trigger] kept[i]).model.name != (#[trigger] kept[j]).model.name by {
                if j == k0.len() {
                    assert(k0[i] == kept[i]);
                    if k0[i].model.name == m.model.name {
                        assert(has_name(k0, m.model.name));
                    }
                } else {
                    assert(k0[i] == kept[i] && k0[j] == kept[j]);
                }
            }
            assert(ms[ms.len() - 1] == m);
        }
    }
}

/// Which matches a report keeps as duplicates, over all inputs: when the
/// report is exclusive, each kept match lies in one of the chosen folders;
/// each differs from the source by name or by being an assembly; each is a
/// match that was found, with the same model, percentage and folder; and
/// every match that qualifies (in a chosen folder when the report is
/// exclusive, differing from the source) has a kept match of its name.
pub proof fn lemma_duplicates_keep_exactly_qualifying_matches(
    source: ModelView,
    source_uuid: u128,
    ms: Seq<ModelMatchView>,
    existing: Seq<FolderView>,
    folders: Seq<FolderView>,
    exclusive: bool,
    tenant: Seq<char>,
)
    ensures
        ({
            let kept = duplicates(source, source_uuid, ms, existing, folders, exclusive, tenant);
            &&& forall|i: int|
                0 <= i < kept.len() ==> {
                    &&& (exclusive ==> exists|f: int|
                        0 <= f < folders.len() && (#[trigger] folders[f]).id == (#[trigger] kept[i]).model.folder_id)
                    &&& (kept[i].model.name != source.name || kept[i].model.is_assembly != source.is_assembly)
                    &&& exists|j: int|
                        0 <= j < ms.len() && (#[trigger] ms[j]).model.uuid == kept[i].model.uuid
                            && ms[j].model.name == kept[i].model.name
                            && ms[j].model.folder_id == kept[i].model.folder_id
                            && ms[j].model.is_assembly == kept[i].model.is_assembly
                            && ms[j].percentage == kept[i].percentage
                }
            &&& forall|j: int|
                0 <= j < ms.len() && (!exclusive || exists|f: int|
                    0 <= f < folders.len() && (#[trigger] folders[f]).id == (#[trigger] ms[j]).model.folder_id)
                    && (ms[j].model.name != source.name || ms[j].model.is_assembly != source.is_assembly)
                    ==> exists|i: int| 0 <= i < kept.len() && (#[trigger] kept[i]).model.name == ms[j].model.name
        }),
    decreases ms.len(),
{
    let kept = duplicates(source, source_uuid, ms, existing, folders, exclusive, tenant);
    lemma_duplicates_are_distinct_candidates(source, source_uuid, ms, existing, folders, exclusive, tenant);
    assert forall|i: int| 0 <= i < kept.len() implies {
        &&& (exclusive ==> exists|f: int|
            0 <= f < folders.len() && (#[trigger] folders[f]).id == (#[trigger] kept[i]).model.folder_id)
        &&& (kept[i].model.name != source.name || kept[i].model.is_assembly != source.is_assembly)
        &&& exists|j: int|
            0 <= j < ms.len() && (#[trigger] ms[j]).model.uuid == kept[i].model.uuid
                && ms[j].model.name == kept[i].model.name
                && ms[j].model.folder_id == kept[i].model.folder_id
                && ms[j].model.is_assembly == kept[i].model.is_assembly
                && ms[j].percentage == kept[i].percentage
    } by {
        assert(duplicate_candidate(source, kept[i], folders, exclusive));
        lemma_first_folder_with_id(folders, kept[i].model.folder_id);
        let j = choose|j: int| 0 <= j < ms.len() && kept[i] == annotated(#[trigger] ms[j], existing, tenant, source_uuid);
        assert(ms[j].model.uuid == kept[i].model.uuid);
    }
    if ms.len() > 0 {
        let prev = ms.drop_last();
        lemma_duplicates_keep_exactly_qualifying_matches(source, source_uuid, prev, existing, folders, exclusive, tenant);
        let k0 = duplicates(source, source_uuid, prev, existing, folders, exclusive, tenant);
        let m = ms.last();
        assert forall|j: int|
            0 <= j < ms.len() && (!exclusive || exists|f: int|
                0 <= f < folders.len() && (#[trigger] folders[f]).id == (#[trigger] ms[j]).model.folder_id)
                && (ms[j].model.name != source.name || ms[j].model.is_assembly != source.is_assembly)
            implies exists|i: int| 0 <= i < kept.len() && (#[trigger] kept[i]).model.name == ms[j].model.name by {
            if j < prev.len() {
                assert(prev[j] == ms[j]);
                let i = choose|i: int| 0 <= i < k0.len() && (#[trigger] k0[i]).model.name == prev[j].model.name;
                if duplicate_candidate(source, m, folders, exclusive) && !has_name(k0, m.model.name) {
                    assert(kept[i] == k0[i]);
                } else {
                    assert(kept == k0);
                }
            } else {
                assert(ms[j] == m);
                if exclusive {
                    let f = choose|f: int| 0 <= f < folders.len() && (#[trigger] folders[f]).id == m.model.folder_id;
                    lemma_first_folder_with_id(folders, m.model.folder_id);
                }
                assert(duplicate_candidate(source, m, folders, exclusive));
                if has_name(k0, m.model.name) {
                    let i = choose|i: int| 0 <= i < k0.len() && (#[trigger] k0[i]).model.name == m.model.name;
                    assert(kept == k0);
                } else {
                    assert(kept[k0.len() as int] == annotated(m, existing, tenant, source_uuid));
                }
            }
        }
    }
}

/// Whether a kept match has a model with this name.
fn contains_name(kept: &Vec<ModelMatch>, name: &String) -> (r: bool)
    ensures
        r == has_name(kept.deep_view(), name@),
{
    let mut i: usize = 0;
    while i < kept.len()
        invariant
            i <= kept.len(),
            forall|k: int| 0 <= k < i ==> kept.deep_view()[k].model.name != name@,
        decreases kept.len() - i,
    {
        if str_eq(kept[i].model.name.as_str(), name.as_str()) {
            assert(kept.deep_view()[i as int].model.name == name@);
            return true;
        }
        i += 1;
    }
    false
}

/// The name of the first folder with this id.
fn folder_name_by_id(folders: &ListOfFolders, id: u32) -> (name: Option<String>)
    ensures
        name.deep_view() == folder_name_of(folders.spec_folders(), id),
{
    match folders.get_folder_by_id(&id) {
        Some(f) => Some(f.name.clone()),
        None => None,
    }
}

/// Picks the duplicates of a source model among its matches.
pub fn select_duplicates(
    source: &Model,
    source_uuid: u128,
    matches: &Vec<ModelMatch>,
    existing_folders: &ListOfFolders,
    folders: &ListOfFolders,
    exclusive: bool,
    tenant: &str,
) -> (kept: Vec<ModelMatch>)
    ensures
        kept.deep_view() == duplicates(
            source@,
            source_uuid,
            matches.deep_view(),
            existing_folders.spec_folders(),
            folders.spec_folders(),
            exclusive,
            tenant@,
        ),
{
    let ghost ms = matches.deep_view();
    let ghost ex = existing_folders.spec_folders();
    let ghost fs = folders.spec_folders();
    let mut kept: Vec<ModelMatch> = Vec::new();
    let mut i: usize = 0;
    while i < matches.len()
        invariant
            i <= matches.len(),
            ms == matches.deep_view(),
            ex == existing_folders.spec_folders(),
            fs == folders.spec_folders(),
            kept.deep_view() == duplicates(
                source@,
                source_uuid,
                ms.take(i as int),
                ex,
                fs,
                exclusive,
                tenant@,
            ),
        decreases matches.len() - i,
    {
        let m = &matches[i];
        proof {
            assert(ms.take(i + 1).drop_last() =~= ms.take(i as int));
            assert(ms.take(i + 1).last() == m@);
        }
        let in_folders = !exclusive || folders.get_folder_by_id(&m.model.folder_id).is_some();
        let name_differs = !str_eq(source.name.as_str(), m.model.name.as_str());
        let kind_differs = source.is_assembly != m.model.is_assembly;
        if in_folders && (name_differs || kind_differs) && !contains_name(&kept, &m.model.name) {
            let mut m1 = m.duplicate();
            m1.comparison_url = Some(comparison_link(tenant, source_uuid, m1.model.uuid));
            m1.model.folder_name = folder_name_by_id(existing_folders, m1.model.folder_id);
            let ghost before = kept.deep_view();
            kept.push(m1);
            proof {
                assert(m1@ == annotated(m@, ex, tenant@, source_uuid));
                assert(kept.deep_view() =~= before.push(m1@));
            }
        }
        i += 1;
    }
    assert(ms.take(matches.len() as int) =~= ms);
    kept
}

/// The value of a metadata property if the model has one of that name.
pub open spec fn property_value(meta: Option<Seq<MetadataItemView>>, name: Seq<char>) -> Option<
    Seq<char>,
> {
    match meta {
        Some(items) => if item_names(items).contains(name) {
            Some(last_value(items, name))
        } else {
            None
        },
        None => None,
    }
}

/// A model takes part in a report when it has finished processing and,
/// under a metadata filter, has metadata holding every filtered property
/// with the filtered value.
pub open spec fn model_selected(m: ModelView, filter: Option<(Seq<Seq<char>>, Seq<Seq<char>>)>) -> bool {
    &&& m.state == "finished"@
    &&& match filter {
        None => true,
        Some((keys, values)) => {
            &&& m.metadata is Some
            &&& forall|i: int|
                0 <= i < keys.len() ==> property_value(m.metadata, #[trigger] keys[i]) == Some(
                    values[i],
                )
        },
    }
}

/// A model takes part in a report exactly when its state is `finished`
/// and, under a metadata filter, it has metadata in which every filtered
/// property is present and its last item of that name has the filtered
/// value.
pub proof fn lemma_model_selected_meaning(m: ModelView, filter: Option<(Seq<Seq<char>>, Seq<Seq<char>>)>)
    ensures
        model_selected(m, filter) <==> {
            &&& m.state == "finished"@
            &&& (filter matches Some((keys, values)) ==> m.metadata matches Some(items) && forall|i: int|
                0 <= i < keys.len() ==> (exists|k: int| 0 <= k < items.len() && (#[trigger] items[k]).name == keys[i])
                    && last_value(items, #[trigger] keys[i]) == values[i])
        },
{
    if m.metadata is Some {
        crate::tables::lemma_item_names_are_names(m.metadata->0);
    }
}

/// The keys and values of a filter, in entry order.
pub open spec fn filter_view(filter: Option<TextMap<String>>) -> Option<(Seq<Seq<char>>, Seq<Seq<char>>)> {
    match filter {
        Some(f) => Some((f.keys(), Seq::new(f.values().len(), |i: int| f.values()[i]@))),
        None => None,
    }
}


/// The value of the last item with the given name, if there is one.
pub fn lookup_property(items: &Vec<ModelMetadataItem>, name: &str) -> (value: Option<String>)
    ensures
        value.deep_view() == property_value(Some(items.deep_view()), name@),
{
    let ghost all = items.deep_view();
    let mut i: usize = items.len();
    assert(all.take(i as int) =~= all);
    while i > 0
        invariant
            i <= items.len(),
            all == items.deep_view(),
            property_value(Some(all), name@) == property_value(Some(all.take(i as int)), name@),
        decreases i,
    {
        let ghost t = all.take(i as int);
        proof {
            assert(t.drop_last() =~= all.take(i - 1));
            assert(t.last() == all[i - 1]);
        }
        if str_eq(items[i - 1].name.as_str(), name) {
            assert(item_names(t).contains(name@));
            return Some(items[i - 1].value.clone());
        }
        proof {
            assert(item_names(t) == item_names(t.drop_last()).insert(all[i - 1].name));
            assert(item_names(t).contains(name@) == item_names(t.drop_last()).contains(name@));
        }
        i -= 1;
    }
    assert(item_names(all.take(0)) == Set::<Seq<char>>::empty());
    None
}

/// Whether a model takes part in a report.
pub fn passes_filter(model: &Model, filter: &Option<TextMap<String>>) -> (r: bool)
    ensures
        r == model_selected(model@, filter_view(*filter)),
{
    if !str_eq(model.state.as_str(), "finished") {
        return false;
    }
    match filter {
        None => true,
        Some(f) => match &model.metadata {
            None => false,
            Some(items) => {
                let entries = f.entries();
                let ghost keys = f.keys();
                let ghost values = Seq::new(f.values().len(), |i: int| f.values()[i]@);
                proof {
                    f.lemma_domain();
                }
                let mut i: usize = 0;
                while i < entries.len()
                    invariant
                        i <= entries@.len(),
                        entries@.len() == keys.len(),
                        keys == f.keys(),
                        model@.metadata == Some(items.deep_view()),
                        *filter == Some(*f),
                        values == Seq::new(f.values().len(), |i: int| f.values()[i]@),
                        values.len() == keys.len(),
                        forall|j: int| 0 <= j < entries@.len() ==> #[trigger] entries@[j].0@ == keys[j],
                        forall|j: int| 0 <= j < entries@.len() ==> #[trigger] entries@[j].1 == f.values()[j],
                        forall|j: int| 0 <= j < i ==> property_value(model@.metadata, #[trigger] keys[j]) == Some(values[j]),
                    decreases entries@.len() - i,
                {
                    let found = lookup_property(items, entries[i].0.as_str());
                    let ok = match &found {
                        Some(v) => str_eq(v.as_str(), entries[i].1.as_str()),
                        None => false,
                    };
                    assert(entries@[i as int].0@ == keys[i as int]);
                    assert(entries@[i as int].1 == f.values()[i as int]);
                    assert(entries@[i as int].1@ == values[i as int]);
                    assert(model@.metadata == Some(items.deep_view()));
                    if !ok {
                        assert(property_value(model@.metadata, keys[i as int]) != Some(values[i as int]));
                        return false;
                    }
                    assert(property_value(model@.metadata, keys[i as int]) == Some(values[i as int]));
                    i += 1;
                }
                true
            },
        },
    }
}

impl Model {
    /// The model's metadata as a map from property name to value, the last
    /// property of a name giving its value; none when the model has no
    /// metadata.
    pub fn get_metadata_as_properties(&self) -> (r: Option<TextMap<String>>)
        ensures
            match r {
                Some(m) => self.metadata is Some && forall|k: Seq<char>|
                    #[trigger] m.spec_map().contains_key(k) == item_names(
                        self.metadata->0.deep_view(),
                    ).contains(k) && (m.spec_map().contains_key(k) ==> m.spec_map()[k]@
                        == last_value(self.metadata->0.deep_view(), k)),
                None => self.metadata is None,
            },
    {
        match &self.metadata {
            None => None,
            Some(items) => {
                let ghost all = items.deep_view();
                let mut m: TextMap<String> = TextMap::new();
                let mut i: usize = 0;
                while i < items.len()
                    invariant
                        i <= items.len(),
                        all == items.deep_view(),
                        forall|k: Seq<char>|
                            #[trigger] m.spec_map().contains_key(k) == item_names(
                                all.take(i as int),
                            ).contains(k) && (m.spec_map().contains_key(k) ==> m.spec_map()[k]@
                                == last_value(all.take(i as int), k)),
                    decreases items.len() - i,
                {
                    proof {
                        assert(all.take(i + 1).drop_last() =~= all.take(i as int));
                        assert(all.take(i + 1).last() == all[i as int]);
                    }
                    m.insert(items[i].name.clone(), items[i].value.clone());
                    i += 1;
                }
                assert(all.take(items.len() as int) =~= all);
                Some(m)
            },
        }
    }
}

/// A report item seen as plain values.
pub struct ReportItemView {
    pub uuid: Seq<char>,
    pub name: Seq<char>,
    pub folder_name: Seq<char>,
    pub matches: Seq<ModelMatchView>,
}

pub open spec fn item_view(item: ModelMatchReportItem) -> ReportItemView {
    ReportItemView {
        uuid: item.uuid@,
        name: item.name@,
        folder_name: item.folder_name@,
        matches: item.matches.deep_view(),
    }
}

/// A report as a map from the text of a source model's UUID to its item.
pub open spec fn report_view(report: SimpleDuplicatesMatchReport) -> Map<Seq<char>, ReportItemView> {
    report.inner.spec_map().map_values(|item: ModelMatchReportItem| item_view(item))
}

/// What stays fixed while a report is assembled: the folders that exist,
/// the folders that count, whether only those count, the metadata filter
/// and the tenant.
pub struct ReportContext {
    pub existing: Seq<FolderView>,
    pub folders: Seq<FolderView>,
    pub exclusive: bool,
    pub filter: Option<(Seq<Seq<char>>, Seq<Seq<char>>)>,
    pub tenant: Seq<char>,
}

/// What the service answered for one model of a report: the model, or
/// `None` when it could not be read, and its matches, or `None` when
/// matching failed or was not asked for.
pub struct ModelOutcome {
    pub fetched: Option<ModelView>,
    pub matches: Option<Seq<ModelMatchView>>,
}

/// Reading the model or matching it failed.
pub open spec fn outcome_failed(outcome: ModelOutcome) -> bool {
    outcome.fetched is None || outcome.matches is None
}

/// What one model adds to a report: an item under the text of its UUID
/// when it was read, is selected, was matched and has duplicates; nothing
/// otherwise.
pub open spec fn contribution(uuid: u128, outcome: ModelOutcome, ctx: ReportContext) -> Map<
    Seq<char>,
    ReportItemView,
> {
    match (outcome.fetched, outcome.matches) {
        (Some(source), Some(ms)) => {
            let kept = duplicates(source, uuid, ms, ctx.existing, ctx.folders, ctx.exclusive, ctx.tenant);
            if model_selected(source, ctx.filter) && kept.len() > 0 {
                map![uuid_text(uuid as nat) => ReportItemView {
                    uuid: uuid_text(uuid as nat),
                    name: source.name,
                    folder_name: or_empty(folder_name_of(ctx.folders, source.folder_id)),
                    matches: kept,
                }]
            } else {
                Map::empty()
            }
        },
        _ => Map::empty(),
    }
}

/// The report over models taken in order, each with its outcome: the
/// contributions of the models, a later one replacing an earlier one under
/// the same key.
pub open spec fn report_of(uuids: Seq<u128>, outcomes: Seq<ModelOutcome>, ctx: ReportContext) -> Map<
    Seq<char>,
    ReportItemView,
>
    decreases uuids.len(),
{
    if uuids.len() == 0 {
        Map::empty()
    } else {
        report_of(uuids.drop_last(), outcomes.drop_last(), ctx).union_prefer_right(
            contribution(uuids.last(), outcomes[uuids.len() - 1], ctx),
        )
    }
}

/// The report over one model alone is what that model contributes.
pub proof fn lemma_report_of_one(uuid: u128, outcome: ModelOutcome, ctx: ReportContext)
    ensures
        report_of(seq![uuid], seq![outcome], ctx) == contribution(uuid, outcome, ctx),
{
    let u = seq![uuid];
    assert(u.drop_last() =~= Seq::<u128>::empty());
    assert(report_of(u.drop_last(), seq![outcome].drop_last(), ctx) == Map::<Seq<char>, ReportItemView>::empty());
    assert(Map::<Seq<char>, ReportItemView>::empty().union_prefer_right(contribution(uuid, outcome, ctx))
        =~= contribution(uuid, outcome, ctx));
}

/// The report over two runs of models one after the other is the report
/// over the first run, overridden by the report over the second.
pub proof fn lemma_report_of_concat(
    a: Seq<u128>,
    outcomes_a: Seq<ModelOutcome>,
    b: Seq<u128>,
    outcomes_b: Seq<ModelOutcome>,
    ctx: ReportContext,
)
    requires
        a.len() == outcomes_a.len(),
        b.len() == outcomes_b.len(),
    ensures
        report_of(a + b, outcomes_a + outcomes_b, ctx) == report_of(a, outcomes_a, ctx).union_prefer_right(
            report_of(b, outcomes_b, ctx),
        ),
    decreases b.len(),
{
    if b.len() == 0 {
        assert(a + b =~= a);
        assert(outcomes_a + outcomes_b =~= outcomes_a);
        assert(report_of(a, outcomes_a, ctx).union_prefer_right(Map::empty()) =~= report_of(a, outcomes_a, ctx));
    } else {
        let ab = a + b;
        let oab = outcomes_a + outcomes_b;
        assert(ab.drop_last() =~= a + b.drop_last());
        assert(oab.drop_last() =~= outcomes_a + outcomes_b.drop_last());
        assert(ab.last() == b.last());
        assert(oab[ab.len() - 1] == outcomes_b[b.len() - 1]);
        lemma_report_of_concat(a, outcomes_a, b.drop_last(), outcomes_b.drop_last(), ctx);
        let ra = report_of(a, outcomes_a, ctx);
        let rb = report_of(b.drop_last(), outcomes_b.drop_last(), ctx);
        let c = contribution(b.last(), outcomes_b[b.len() - 1], ctx);
        assert(ra.union_prefer_right(rb).union_prefer_right(c) =~= ra.union_prefer_right(rb.union_prefer_right(c)));
    }
}

/// A model that could not be read, or whose matching failed, adds nothing
/// to a report.
pub proof fn lemma_failed_model_adds_nothing(uuid: u128, outcome: ModelOutcome, ctx: ReportContext)
    requires
        outcome_failed(outcome),
    ensures
        contribution(uuid, outcome, ctx) == Map::<Seq<char>, ReportItemView>::empty(),
{
}

/// A report over several models is the same as the report over them with a
/// failed model left out: a failure skips that model and no other.
pub proof fn lemma_failed_model_is_skipped(
    uuids: Seq<u128>,
    outcomes: Seq<ModelOutcome>,
    i: int,
    ctx: ReportContext,
)
    requires
        uuids.len() == outcomes.len(),
        0 <= i < uuids.len(),
        outcome_failed(outcomes[i]),
    ensures
        report_of(uuids, outcomes, ctx) == report_of(uuids.remove(i), outcomes.remove(i), ctx),
{
    let front = uuids.take(i);
    let of = outcomes.take(i);
    let mid = seq![uuids[i]];
    let om = seq![outcomes[i]];
    let back = uuids.skip(i + 1);
    let ob = outcomes.skip(i + 1);
    assert(uuids =~= front + mid + back);
    assert(outcomes =~= of + om + ob);
    assert(uuids.remove(i) =~= front + back);
    assert(outcomes.remove(i) =~= of + ob);
    lemma_report_of_concat(front, of, mid, om, ctx);
    lemma_report_of_concat(front + mid, of + om, back, ob, ctx);
    lemma_report_of_concat(front, of, back, ob, ctx);
    lemma_report_of_one(uuids[i], outcomes[i], ctx);
    let rf = report_of(front, of, ctx);
    assert(rf.union_prefer_right(Map::<Seq<char>, ReportItemView>::empty()) =~= rf);
}

/// The report over several models is the union of the reports over each
/// model alone, a later model replacing an earlier one under the same key.
pub proof fn lemma_report_is_union_of_single_reports(
    uuids: Seq<u128>,
    outcomes: Seq<ModelOutcome>,
    ctx: ReportContext,
)
    requires
        uuids.len() == outcomes.len(),
    ensures
        forall|k: Seq<char>| #[trigger] report_of(uuids, outcomes, ctx).contains_key(k) <==> exists|i: int|
            0 <= i < uuids.len() && #[trigger] report_of(seq![uuids[i]], seq![outcomes[i]], ctx).contains_key(k),
        forall|k: Seq<char>, i: int|
            0 <= i < uuids.len() && #[trigger] report_of(seq![uuids[i]], seq![outcomes[i]], ctx).contains_key(k)
                && (forall|j: int| i < j < uuids.len() ==> !#[trigger] report_of(seq![uuids[j]], seq![outcomes[j]], ctx).contains_key(k))
                ==> #[trigger] report_of(uuids, outcomes, ctx)[k] == report_of(seq![uuids[i]], seq![outcomes[i]], ctx)[k],
    decreases uuids.len(),
{
    if uuids.len() > 0 {
        let n = uuids.len() - 1;
        let pu = uuids.drop_last();
        let po = outcomes.drop_last();
        lemma_report_is_union_of_single_reports(pu, po, ctx);
        lemma_report_of_one(uuids[n], outcomes[n], ctx);
        let r = report_of(uuids, outcomes, ctx);
        let prev = report_of(pu, po, ctx);
        let last = contribution(uuids[n], outcomes[n], ctx);
        assert(uuids.last() == uuids[n]);
        assert(r == prev.union_prefer_right(last));
        assert forall|k: Seq<char>| #[trigger] r.contains_key(k) implies exists|i: int|
            0 <= i < uuids.len() && #[trigger] report_of(seq![uuids[i]], seq![outcomes[i]], ctx).contains_key(k) by {
            if last.contains_key(k) {
                assert(report_of(seq![uuids[n]], seq![outcomes[n]], ctx).contains_key(k));
            } else {
                assert(prev.contains_key(k));
                let i = choose|i: int| 0 <= i < pu.len() && #[trigger] report_of(seq![pu[i]], seq![po[i]], ctx).contains_key(k);
                assert(pu[i] == uuids[i] && po[i] == outcomes[i]);
                assert(report_of(seq![uuids[i]], seq![outcomes[i]], ctx).contains_key(k));
            }
        }
        assert forall|k: Seq<char>, i: int|
            0 <= i < uuids.len() && #[trigger] report_of(seq![uuids[i]], seq![outcomes[i]], ctx).contains_key(k)
            implies #[trigger] r.contains_key(k) by {
            if i < n {
                assert(pu[i] == uuids[i] && po[i] == outcomes[i]);
                assert(report_of(seq![pu[i]], seq![po[i]], ctx).contains_key(k));
                assert(prev.contains_key(k));
            }
        }
        assert forall|k: Seq<char>, i: int|
            0 <= i < uuids.len() && #[trigger] report_of(seq![uuids[i]], seq![outcomes[i]], ctx).contains_key(k)
                && (forall|j: int| i < j < uuids.len() ==> !#[trigger] report_of(seq![uuids[j]], seq![outcomes[j]], ctx).contains_key(k))
            implies #[trigger] r[k] == report_of(seq![uuids[i]], seq![outcomes[i]], ctx)[k] by {
            if i < n {
                assert(!report_of(seq![uuids[n]], seq![outcomes[n]], ctx).contains_key(k));
                assert(!last.contains_key(k));
                assert(pu[i] == uuids[i] && po[i] == outcomes[i]);
                assert forall|j: int| i < j < pu.len() implies !#[trigger] report_of(seq![pu[j]], seq![po[j]], ctx).contains_key(k) by {
                    assert(pu[j] == uuids[j] && po[j] == outcomes[j]);
                    assert(!report_of(seq![uuids[j]], seq![outcomes[j]], ctx).contains_key(k));
                }
                assert(report_of(seq![pu[i]], seq![po[i]], ctx).contains_key(k));
                assert(prev[k] == report_of(seq![pu[i]], seq![po[i]], ctx)[k]);
            }
        }
    }
}

/// Handling one more model adds its contribution to the report so far.
proof fn lemma_report_step(
    uuids: Seq<u128>,
    position: int,
    outcomes: Seq<ModelOutcome>,
    outcome: ModelOutcome,
    ctx: ReportContext,
)
    requires
        0 <= position < uuids.len(),
        outcomes.len() == position,
    ensures
        report_of(uuids.take(position + 1), outcomes.push(outcome), ctx) == report_of(
            uuids.take(position),
            outcomes,
            ctx,
        ).union_prefer_right(contribution(uuids[position], outcome, ctx)),
{
    let t = uuids.take(position + 1);
    assert(t.drop_last() =~= uuids.take(position));
    assert(outcomes.push(outcome).drop_last() =~= outcomes);
    assert(t.last() == uuids[position]);
}

/// What the caller should do next while a report is assembled.
#[derive(Debug, Clone, Copy, PartialEq, Eq)]
pub enum ReportAction {
    /// Read the model with this UUID, with its metadata when asked for.
    FetchModel(u128),
    /// Find the matches of the model with this UUID.
    MatchModel(u128),
    /// The report is complete.
    Done,
}

/// The assembly of a duplicates report over a list of models. The caller
/// asks `next_action` what to fetch and hands the outcome back: the model
/// or `None` when it could not be read, the matches or `None` when
/// matching failed; a model that fails is skipped.
pub struct SimpleReportGenerator {
    pub uuids: Vec<u128>,
    pub position: usize,
    pub current: Option<Model>,
    pub existing_folders: ListOfFolders,
    pub folders: ListOfFolders,
    pub exclusive: bool,
    pub metadata_filter: Option<TextMap<String>>,
    pub tenant: String,
    pub report: SimpleDuplicatesMatchReport,
    /// What the service answered for each model handled so far.
    pub outcomes: Ghost<Seq<ModelOutcome>>,
}

/// A model that was read, seen as plain values.
pub open spec fn fetched_view(fetched: Option<Model>) -> Option<ModelView> {
    match fetched {
        Some(m) => Some(m@),
        None => None,
    }
}

/// Matches that were found, seen as plain values.
pub open spec fn matches_view(matches: Option<Vec<ModelMatch>>) -> Option<Seq<ModelMatchView>> {
    match matches {
        Some(ms) => Some(ms.deep_view()),
        None => None,
    }
}

/// The report item of a source model and its duplicates.
pub open spec fn item_fits(
    item: ModelMatchReportItem,
    source_uuid: u128,
    source: ModelView,
    folders: Seq<FolderView>,
    kept: Seq<ModelMatchView>,
) -> bool {
    &&& item.uuid@ == uuid_text(source_uuid as nat)
    &&& item.name@ == source.name
    &&& item.folder_name@ == or_empty(folder_name_of(folders, source.folder_id))
    &&& item.matches.deep_view() == kept
}

impl SimpleReportGenerator {
    /// What stays fixed while this report is assembled.
    pub open spec fn ctx(&self) -> ReportContext {
        ReportContext {
            existing: self.existing_folders.spec_folders(),
            folders: self.folders.spec_folders(),
            exclusive: self.exclusive,
            filter: filter_view(self.metadata_filter),
            tenant: self.tenant@,
        }
    }

    /// The report so far is the report over the models handled so far, and
    /// a model waiting for its matches is one that takes part.
    pub open spec fn wf(&self) -> bool {
        &&& self.position <= self.uuids@.len()
        &&& self.current is Some ==> self.position < self.uuids@.len()
        &&& self.current matches Some(m) ==> model_selected(m@, filter_view(self.metadata_filter))
        &&& self.outcomes@.len() == self.position
        &&& report_view(self.report) == report_of(self.uuids@.take(self.position as int), self.outcomes@, self.ctx())
    }

    /// Starts a report over the given models. With folder names, only
    /// those folders count for an exclusive report; unknown names fail as
    /// `validate_folders` fails.
    pub fn start(
        uuids: Vec<u128>,
        existing_folders: ListOfFolders,
        folder_names: Option<Vec<String>>,
        exclusive: bool,
        metadata_filter: Option<TextMap<String>>,
        tenant: String,
    ) -> (r: Result<SimpleReportGenerator, ApiError>)
        ensures
            match r {
                Ok(g) => {
                    &&& (folder_names matches Some(names) ==> crate::folders::missing_names(
                        existing_folders.spec_folders(),
                        names.deep_view(),
                    ).len() == 0)
                    &&& g.wf()
                    &&& g.uuids@ == uuids@
                    &&& g.position == 0
                    &&& g.current is None
                    &&& g.existing_folders.spec_folders() == existing_folders.spec_folders()
                    &&& g.folders.spec_folders() == match folder_names {
                        Some(names) => if names@.len() > 0 {
                            crate::folders::named_folders(existing_folders.spec_folders(), names.deep_view())
                        } else {
                            existing_folders.spec_folders()
                        },
                        None => existing_folders.spec_folders(),
                    }
                    &&& g.exclusive == exclusive
                    &&& g.metadata_filter == metadata_filter
                    &&& g.tenant == tenant
                    &&& g.report.inner.keys().len() == 0
                    &&& g.report.inner.spec_map() == Map::<Seq<char>, ModelMatchReportItem>::empty()
                    &&& g.outcomes@ == Seq::<ModelOutcome>::empty()
                },
                Err(e) => folder_names matches Some(names) && crate::folders::missing_names(
                    existing_folders.spec_folders(),
                    names.deep_view(),
                ).len() > 0 && (e matches ApiError::FolderNotFound(t) && t@ == crate::text::joined(
                    crate::folders::missing_names(existing_folders.spec_folders(), names.deep_view()),
                    ", "@,
                )),
            },
    {
        let folders = match &folder_names {
            Some(names) => match validate_folders(&existing_folders, names) {
                Ok(list) => list,
                Err(e) => return Err(e),
            },
            None => existing_folders.duplicate(),
        };
        let report = SimpleDuplicatesMatchReport::new();
        assert(report_view(report) =~= Map::<Seq<char>, ReportItemView>::empty());
        Ok(SimpleReportGenerator {
            uuids,
            position: 0,
            current: None,
            existing_folders,
            folders,
            exclusive,
            metadata_filter,
            tenant,
            report,
            outcomes: Ghost(Seq::empty()),
        })
    }

    /// The next step: match the model read last, read the next model, or
    /// stop when every model has been handled.
    pub fn next_action(&self) -> (a: ReportAction)
        requires
            self.wf(),
        ensures
            a == if self.current is Some {
                ReportAction::MatchModel(self.uuids@[self.position as int])
            } else if self.position < self.uuids@.len() {
                ReportAction::FetchModel(self.uuids@[self.position as int])
            } else {
                ReportAction::Done
            },
    {
        if self.current.is_some() {
            ReportAction::MatchModel(self.uuids[self.position])
        } else if self.position < self.uuids.len() {
            ReportAction::FetchModel(self.uuids[self.position])
        } else {
            ReportAction::Done
        }
    }

    /// Takes the outcome of reading a model. A model that was read, has
    /// finished processing and passes the metadata filter is kept for
    /// matching; otherwise the report moves on to the next model.
    pub fn on_model(&mut self, fetched: Option<Model>)
        requires
            old(self).wf(),
            old(self).current is None,
            old(self).position < old(self).uuids@.len(),
        ensures
            final(self).wf(),
            final(self).uuids == old(self).uuids,
            final(self).existing_folders == old(self).existing_folders,
            final(self).folders == old(self).folders,
            final(self).exclusive == old(self).exclusive,
            final(self).metadata_filter == old(self).metadata_filter,
            final(self).tenant == old(self).tenant,
            final(self).report == old(self).report,
            match fetched {
                Some(m) => if model_selected(m@, filter_view(old(self).metadata_filter)) {
                    &&& final(self).current == Some(m)
                    &&& final(self).position == old(self).position
                    &&& final(self).outcomes == old(self).outcomes
                } else {
                    &&& final(self).current is None
                    &&& final(self).position == old(self).position + 1
                    &&& final(self).outcomes@ == old(self).outcomes@.push(
                        ModelOutcome { fetched: Some(m@), matches: None },
                    )
                },
                None => {
                    &&& final(self).current is None
                    &&& final(self).position == old(self).position + 1
                    &&& final(self).outcomes@ == old(self).outcomes@.push(
                        ModelOutcome { fetched: None, matches: None },
                    )
                },
            },
    {
        let n = self.uuids.len();
        assert(self.position < n);
        let ghost outcome = ModelOutcome { fetched: fetched_view(fetched), matches: None };
        proof {
            lemma_report_step(self.uuids@, self.position as int, self.outcomes@, outcome, self.ctx());
            lemma_failed_model_adds_nothing(self.uuids@[self.position as int], outcome, self.ctx());
            let before = report_view(self.report);
            assert(before.union_prefer_right(Map::<Seq<char>, ReportItemView>::empty()) =~= before);
        }
        match fetched {
            Some(m) => {
                if passes_filter(&m, &self.metadata_filter) {
                    self.current = Some(m);
                } else {
                    self.position = self.position + 1;
                    proof {
                        self.outcomes@ = self.outcomes@.push(outcome);
                    }
                }
            },
            None => {
                self.position = self.position + 1;
                proof {
                    self.outcomes@ = self.outcomes@.push(outcome);
                }
            },
        }
    }

    /// Takes the matches of the model read last. When matching succeeded
    /// and some matches are duplicates, the report gets an item for the
    /// model under the text of its UUID; in any case the report moves on to
    /// the next model.
    pub fn on_matches(&mut self, matches: Option<Vec<ModelMatch>>)
        requires
            old(self).wf(),
            old(self).current is Some,
        ensures
            final(self).wf(),
            final(self).uuids == old(self).uuids,
            final(self).existing_folders == old(self).existing_folders,
            final(self).folders == old(self).folders,
            final(self).exclusive == old(self).exclusive,
            final(self).metadata_filter == old(self).metadata_filter,
            final(self).tenant == old(self).tenant,
            final(self).current is None,
            final(self).position == old(self).position + 1,
            final(self).outcomes@ == old(self).outcomes@.push(
                ModelOutcome { fetched: Some(old(self).current->0@), matches: matches_view(matches) },
            ),
            ({
                let uuid = old(self).uuids@[old(self).position as int];
                let source = old(self).current->0;
                let key = uuid_text(uuid as nat);
                match matches {
                    Some(ms) => {
                        let kept = duplicates(
                            source@,
                            uuid,
                            ms.deep_view(),
                            old(self).existing_folders.spec_folders(),
                            old(self).folders.spec_folders(),
                            old(self).exclusive,
                            old(self).tenant@,
                        );
                        if kept.len() > 0 {
                            &&& final(self).report.inner.spec_map() == old(self).report.inner.spec_map().insert(
                                key,
                                final(self).report.inner.spec_map()[key],
                            )
                            &&& item_fits(
                                final(self).report.inner.spec_map()[key],
                                uuid,
                                source@,
                                old(self).folders.spec_folders(),
                                kept,
                            )
                            &&& (old(self).report.inner.keys().contains(key) ==> final(self).report.inner.keys() == old(self).report.inner.keys())
                            &&& (!old(self).report.inner.keys().contains(key) ==> final(self).report.inner.keys() == old(self).report.inner.keys().push(key))
                        } else {
                            final(self).report == old(self).report
                        }
                    },
                    None => final(self).report == old(self).report,
                }
            }),
    {
        let n = self.uuids.len();
        assert(self.position < n);
        let uuid = self.uuids[self.position];
        let source = self.current.take().unwrap();
        let ghost outcome = ModelOutcome { fetched: Some(source@), matches: matches_view(matches) };
        let ghost before = report_view(self.report);
        proof {
            lemma_report_step(self.uuids@, self.position as int, self.outcomes@, outcome, self.ctx());
        }
        match matches {
            Some(ms) => {
                let kept = select_duplicates(
                    &source,
                    uuid,
                    &ms,
                    &self.existing_folders,
                    &self.folders,
                    self.exclusive,
                    self.tenant.as_str(),
                );
                if kept.len() > 0 {
                    let folder_name = match folder_name_by_id(&self.folders, source.folder_id) {
                        Some(name) => name,
                        None => String::new(),
                    };
                    let key = uuid_to_string(uuid);
                    let item = ModelMatchReportItem {
                        uuid: uuid_to_string(uuid),
                        name: source.name,
                        folder_name,
                        matches: kept,
                    };
                    let ghost item_value = item;
                    self.report.inner.insert(key, item);
                    assert(self.report.inner.spec_map()[uuid_text(uuid as nat)] == item_value);
                    assert(report_view(self.report) =~= before.union_prefer_right(
                        contribution(uuid, outcome, self.ctx()),
                    ));
                } else {
                    assert(contribution(uuid, outcome, self.ctx()) =~= Map::<Seq<char>, ReportItemView>::empty());
                    assert(before.union_prefer_right(contribution(uuid, outcome, self.ctx())) =~= before);
                }
            },
            None => {
                assert(before.union_prefer_right(contribution(uuid, outcome, self.ctx())) =~= before);
            },
        }
        self.position = self.position + 1;
        proof {
            self.outcomes@ = self.outcomes@.push(outcome);
        }
    }

    /// The finished report.
    pub fn finish(self) -> (report: SimpleDuplicatesMatchReport)
        ensures
            report == self.report,
            self.wf() && self.current is None && self.position == self.uuids@.len() ==> report_view(report)
                == report_of(self.uuids@, self.outcomes@, self.ctx()),
    {
        assert(self.uuids@.take(self.uuids@.len() as int) =~= self.uuids@);
        self.report
    }
}

} // verus!
