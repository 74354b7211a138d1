//! The data model: folders, models, their metadata properties, assembly
//! trees, matches and reports.

use vstd::prelude::*;
use crate::text_map::TextMap;

verus! {

/// Errors of CSV rendering.
#[derive(Debug, Clone, PartialEq, Eq)]
pub enum ParsingError {
    CsvParsingError,
    FailedToExtractCsvValue,
    InputOutputError,
    FailedToExtractValueFromByteBuffer,
    FailedToExtractValueFromCsvBuffer,
    ConversionError,
}

/// Where to send requests and with which access token.
#[derive(Clone, Debug)]
pub struct Configuration {
    pub base_url: String,
    pub access_token: String,
}

/// A raw service reply: its status and body.
#[derive(Clone, Debug, Default)]
pub struct ResponseContent {
    pub status: u32,
    pub content: String,
}

/// A folder: a named storage unit for models.
#[derive(Clone, Debug, Default)]
pub struct Folder {
    pub id: u32,
    pub name: String,
}

pub struct FolderView {
    pub id: u32,
    pub name: Seq<char>,
}

impl View for Folder {
    type V = FolderView;

    open spec fn view(&self) -> FolderView {
        FolderView { id: self.id, name: self.name@ }
    }
}

impl DeepView for Folder {
    type V = FolderView;

    open spec fn deep_view(&self) -> FolderView {
        self@
    }
}

impl Folder {
    pub fn new(id: u32, name: String) -> (folder: Folder)
        ensures
            folder.id == id,
            folder.name@ == name@,
    {
        Folder { id, name }
    }

    /// A copy of the folder.
    pub fn duplicate(&self) -> (copy: Folder)
        ensures
            copy@ == self@,
    {
        Folder { id: self.id, name: self.name.clone() }
    }
}

/// The folders of a tenant, in the order the service listed them.
#[derive(Clone, Debug, Default)]
pub struct ListOfFolders {
    pub folders: Vec<Folder>,
}

/// Index of the first folder with the given id.
pub open spec fn first_folder_with_id(folders: Seq<FolderView>, id: u32) -> Option<int> {
    if exists|i: int| 0 <= i < folders.len() && folders[i].id == id {
        Some(choose|i: int| 0 <= i < folders.len() && folders[i].id == id
            && forall|j: int| 0 <= j < i ==> folders[j].id != id)
    } else {
        None
    }
}

/// Index of the first folder with the given name.
pub open spec fn first_folder_with_name(folders: Seq<FolderView>, name: Seq<char>) -> Option<int> {
    if exists|i: int| 0 <= i < folders.len() && folders[i].name == name {
        Some(choose|i: int| 0 <= i < folders.len() && folders[i].name == name
            && forall|j: int| 0 <= j < i ==> folders[j].name != name)
    } else {
        None
    }
}

/// A folder with the id exists exactly when there is a first one, and the
/// first one has the id while no earlier folder has.
pub proof fn lemma_first_folder_with_id(folders: Seq<FolderView>, id: u32)
    ensures
        first_folder_with_id(folders, id) is Some <==> exists|k: int|
            0 <= k < folders.len() && (#[trigger] folders[k]).id == id,
        first_folder_with_id(folders, id) matches Some(i) ==> {
            &&& 0 <= i < folders.len()
            &&& folders[i].id == id
            &&& forall|j: int| 0 <= j < i ==> (#[trigger] folders[j]).id != id
        },
{
    if exists|k: int| 0 <= k < folders.len() && folders[k].id == id {
        let k = choose|k: int| 0 <= k < folders.len() && folders[k].id == id;
        lemma_least_folder_with_id(folders, id, k);
    }
}

proof fn lemma_least_folder_with_id(folders: Seq<FolderView>, id: u32, k: int)
    requires
        0 <= k < folders.len(),
        folders[k].id == id,
    ensures
        exists|i: int|
            0 <= i < folders.len() && #[trigger] folders[i].id == id && forall|j: int|
                0 <= j < i ==> folders[j].id != id,
    decreases k,
{
    if exists|j: int| 0 <= j < k && folders[j].id == id {
        let j = choose|j: int| 0 <= j < k && folders[j].id == id;
        lemma_least_folder_with_id(folders, id, j);
    } else {
        assert(0 <= k < folders.len() && folders[k].id == id && forall|j: int|
            0 <= j < k ==> folders[j].id != id);
    }
}

/// A folder with the name exists exactly when there is a first one, and the
/// first one has the name while no earlier folder has.
pub proof fn lemma_first_folder_with_name(folders: Seq<FolderView>, name: Seq<char>)
    ensures
        first_folder_with_name(folders, name) is Some <==> exists|k: int|
            0 <= k < folders.len() && (#[trigger] folders[k]).name == name,
        first_folder_with_name(folders, name) matches Some(i) ==> {
            &&& 0 <= i < folders.len()
            &&& folders[i].name == name
            &&& forall|j: int| 0 <= j < i ==> (#[trigger] folders[j]).name != name
        },
{
    if exists|k: int| 0 <= k < folders.len() && folders[k].name == name {
        let k = choose|k: int| 0 <= k < folders.len() && folders[k].name == name;
        lemma_least_folder_with_name(folders, name, k);
    }
}

proof fn lemma_least_folder_with_name(folders: Seq<FolderView>, name: Seq<char>, k: int)
    requires
        0 <= k < folders.len(),
        folders[k].name == name,
    ensures
        exists|i: int|
            0 <= i < folders.len() && #[trigger] folders[i].name == name && forall|j: int|
                0 <= j < i ==> folders[j].name != name,
    decreases k,
{
    if exists|j: int| 0 <= j < k && folders[j].name == name {
        let j = choose|j: int| 0 <= j < k && folders[j].name == name;
        lemma_least_folder_with_name(folders, name, j);
    } else {
        assert(0 <= k < folders.len() && folders[k].name == name && forall|j: int|
            0 <= j < k ==> folders[j].name != name);
    }
}

impl ListOfFolders {
    pub open spec fn spec_folders(&self) -> Seq<FolderView> {
        self.folders.deep_view()
    }

    /// The first folder with this id, if any.
    pub fn get_folder_by_id(&self, id: &u32) -> (found: Option<&Folder>)
        ensures
            match found {
                Some(f) => {
                    &&& first_folder_with_id(self.spec_folders(), *id) is Some
                    &&& f@ == self.spec_folders()[first_folder_with_id(self.spec_folders(), *id)->0]
                },
                None => first_folder_with_id(self.spec_folders(), *id) is None,
            },
    {
        let mut i: usize = 0;
        while i < self.folders.len()
            invariant
                i <= self.folders.len(),
                forall|j: int| 0 <= j < i ==> self.spec_folders()[j].id != *id,
            decreases self.folders.len() - i,
        {
            if self.folders[i].id == *id {
                let ghost k = first_folder_with_id(self.spec_folders(), *id)->0;
                proof {
                    assert(self.spec_folders()[i as int].id == *id);
                    if k < i {
                    } else if k > i {
                    }
                }
                return Some(&self.folders[i]);
            }
            i += 1;
        }
        None
    }

    /// The first folder with this name, if any.
    pub fn get_folder_by_name(&self, name: &str) -> (found: Option<&Folder>)
        ensures
            match found {
                Some(f) => {
                    &&& first_folder_with_name(self.spec_folders(), name@) is Some
                    &&& f@ == self.spec_folders()[first_folder_with_name(self.spec_folders(), name@)->0]
                },
                None => first_folder_with_name(self.spec_folders(), name@) is None,
            },
    {
        let mut i: usize = 0;
        while i < self.folders.len()
            invariant
                i <= self.folders.len(),
                forall|j: int| 0 <= j < i ==> self.spec_folders()[j].name != name@,
            decreases self.folders.len() - i,
        {
            if crate::text::str_eq(self.folders[i].name.as_str(), name) {
                let ghost k = first_folder_with_name(self.spec_folders(), name@)->0;
                proof {
                    assert(self.spec_folders()[i as int].name == name@);
                }
                return Some(&self.folders[i]);
            }
            i += 1;
        }
        None
    }
}


/// A metadata property key known to the tenant.
#[derive(Clone, Debug, Default)]
pub struct Property {
    pub id: u64,
    pub name: String,
}

/// A name and a value.
#[derive(Clone, Debug, Default)]
pub struct Pair {
    pub name: String,
    pub value: String,
}

/// All metadata property keys of a tenant.
#[derive(Clone, Debug, Default)]
pub struct PropertyCollection {
    pub properties: Vec<Property>,
}

/// One metadata property of a model: its key id, name and value.
#[derive(Clone, Debug, Default)]
pub struct ModelMetadataItem {
    pub key_id: u64,
    pub name: String,
    pub value: String,
}

pub struct MetadataItemView {
    pub key_id: u64,
    pub name: Seq<char>,
    pub value: Seq<char>,
}

impl View for ModelMetadataItem {
    type V = MetadataItemView;

    open spec fn view(&self) -> MetadataItemView {
        MetadataItemView { key_id: self.key_id, name: self.name@, value: self.value@ }
    }
}

impl DeepView for ModelMetadataItem {
    type V = MetadataItemView;

    open spec fn deep_view(&self) -> MetadataItemView {
        self@
    }
}

impl ModelMetadataItem {
    pub fn new(key_id: u64, name: String, value: String) -> (item: ModelMetadataItem)
        ensures
            item.key_id == key_id,
            item.name@ == name@,
            item.value@ == value@,
    {
        ModelMetadataItem { key_id, name, value }
    }

    /// A copy of the item.
    pub fn duplicate(&self) -> (copy: ModelMetadataItem)
        ensures
            copy@ == self@,
    {
        ModelMetadataItem { key_id: self.key_id, name: self.name.clone(), value: self.value.clone() }
    }
}

/// A copy of a list of metadata items.
pub fn duplicate_items(items: &Vec<ModelMetadataItem>) -> (copy: Vec<ModelMetadataItem>)
    ensures
        copy.deep_view() == items.deep_view(),
{
    let mut copy: Vec<ModelMetadataItem> = Vec::new();
    let mut i: usize = 0;
    while i < items.len()
        invariant
            i <= items.len(),
            copy.deep_view() == items.deep_view().take(i as int),
        decreases items.len() - i,
    {
        let ghost before = copy.deep_view();
        let item = items[i].duplicate();
        copy.push(item);
        proof {
            assert(copy.deep_view() =~= before.push(items[i as int]@));
            assert(items.deep_view().take(i + 1) =~= items.deep_view().take(i as int).push(
                items[i as int]@,
            ));
        }
        i += 1;
    }
    proof {
        assert(items.deep_view().take(items.len() as int) =~= items.deep_view());
    }
    copy
}

/// A metadata row as read from a CSV file: model, name and value.
#[derive(Clone, Debug, Default)]
pub struct ModelMetadataItemShort {
    pub model_uuid: u128,
    pub name: String,
    pub value: String,
}

/// A metadata property together with the model it belongs to.
#[derive(Clone, Debug, Default)]
pub struct ModelExtendedMetadataItem {
    pub key_id: u64,
    pub model_uuid: u128,
    pub name: String,
    pub value: String,
}

impl ModelMetadataItemShort {
    /// The row as a property of its model under the given key id.
    pub fn to_item(&self, key_id: u64) -> (item: ModelExtendedMetadataItem)
        ensures
            item.model_uuid == self.model_uuid,
            item.key_id == key_id,
            item.name@ == self.name@,
            item.value@ == self.value@,
    {
        ModelExtendedMetadataItem {
            model_uuid: self.model_uuid,
            key_id,
            name: self.name.clone(),
            value: self.value.clone(),
        }
    }
}

impl ModelExtendedMetadataItem {
    pub fn new(model_uuid: u128, key_id: u64, name: String, value: String) -> (item:
        ModelExtendedMetadataItem)
        ensures
            item.model_uuid == model_uuid,
            item.key_id == key_id,
            item.name@ == name@,
            item.value@ == value@,
    {
        ModelExtendedMetadataItem { model_uuid, key_id, name, value }
    }

    /// The property without its model.
    pub fn to_item(&self) -> (item: ModelMetadataItem)
        ensures
            item.key_id == self.key_id,
            item.name@ == self.name@,
            item.value@ == self.value@,
    {
        ModelMetadataItem { key_id: self.key_id, name: self.name.clone(), value: self.value.clone() }
    }
}

/// The metadata properties of one model, in the order they were given.
#[derive(Clone, Debug, Default)]
pub struct ModelMetadata {
    pub properties: Vec<ModelMetadataItem>,
}

impl ModelMetadata {
    pub fn new(properties: Vec<ModelMetadataItem>) -> (meta: ModelMetadata)
        ensures
            meta.properties.deep_view() == properties.deep_view(),
    {
        ModelMetadata { properties }
    }

    /// Appends a copy of the item.
    pub fn add(&mut self, new_item: &ModelMetadataItem)
        ensures
            final(self).properties.deep_view() == old(self).properties.deep_view().push(new_item@),
    {
        self.properties.push(new_item.duplicate());
        proof {
            assert(self.properties.deep_view() =~= old(self).properties.deep_view().push(new_item@));
        }
    }
}

/// A 3D model as the service describes it. `uuid` is the model's UUID as a
/// 128-bit value.
#[derive(Clone, Debug, Default)]
pub struct Model {
    pub uuid: u128,
    pub is_assembly: bool,
    pub name: String,
    pub folder_id: u32,
    pub folder_name: Option<String>,
    pub owner_id: String,
    pub created_at: String,
    pub file_type: String,
    pub thumbnail: Option<String>,
    pub units: String,
    pub state: String,
    pub attachment_url: Option<String>,
    pub short_id: Option<u64>,
    pub metadata: Option<Vec<ModelMetadataItem>>,
}

pub struct ModelView {
    pub uuid: u128,
    pub is_assembly: bool,
    pub name: Seq<char>,
    pub folder_id: u32,
    pub folder_name: Option<Seq<char>>,
    pub owner_id: Seq<char>,
    pub created_at: Seq<char>,
    pub file_type: Seq<char>,
    pub thumbnail: Option<Seq<char>>,
    pub units: Seq<char>,
    pub state: Seq<char>,
    pub attachment_url: Option<Seq<char>>,
    pub short_id: Option<u64>,
    pub metadata: Option<Seq<MetadataItemView>>,
}

impl View for Model {
    type V = ModelView;

    open spec fn view(&self) -> ModelView {
        ModelView {
            uuid: self.uuid,
            is_assembly: self.is_assembly,
            name: self.name@,
            folder_id: self.folder_id,
            folder_name: self.folder_name.deep_view(),
            owner_id: self.owner_id@,
            created_at: self.created_at@,
            file_type: self.file_type@,
            thumbnail: self.thumbnail.deep_view(),
            units: self.units@,
            state: self.state@,
            attachment_url: self.attachment_url.deep_view(),
            short_id: self.short_id,
            metadata: self.metadata.deep_view(),
        }
    }
}

impl DeepView for Model {
    type V = ModelView;

    open spec fn deep_view(&self) -> ModelView {
        self@
    }
}

/// A copy of an optional string.
pub fn duplicate_text(s: &Option<String>) -> (copy: Option<String>)
    ensures
        copy.deep_view() == s.deep_view(),
{
    match s {
        Some(t) => Some(t.clone()),
        None => None,
    }
}

impl Model {
    /// A copy of the model.
    pub fn duplicate(&self) -> (copy: Model)
        ensures
            copy@ == self@,
    {
        let metadata = match &self.metadata {
            Some(items) => Some(duplicate_items(items)),
            None => None,
        };
        Model {
            uuid: self.uuid,
            is_assembly: self.is_assembly,
            name: self.name.clone(),
            folder_id: self.folder_id,
            folder_name: duplicate_text(&self.folder_name),
            owner_id: self.owner_id.clone(),
            created_at: self.created_at.clone(),
            file_type: self.file_type.clone(),
            thumbnail: duplicate_text(&self.thumbnail),
            units: self.units.clone(),
            state: self.state.clone(),
            attachment_url: duplicate_text(&self.attachment_url),
            short_id: self.short_id,
            metadata,
        }
    }
}

/// A list of models.
#[derive(Clone, Debug, Default)]
pub struct ListOfModels {
    pub models: Vec<Model>,
}

impl ListOfModels {
    pub fn new(models: Vec<Model>) -> (list: ListOfModels)
        ensures
            list.models.deep_view() == models.deep_view(),
    {
        ListOfModels { models }
    }
}


/// A model with the models of its sub-assemblies and parts.
#[derive(Debug, Default)]
pub struct ModelAssemblyTree {
    pub model: Model,
    pub children: Option<Vec<ModelAssemblyTree>>,
}

impl ModelAssemblyTree {
    pub fn new(model: Model, children: Option<Vec<ModelAssemblyTree>>) -> (tree: ModelAssemblyTree)
        ensures
            tree.model == model,
            tree.children == children,
    {
        ModelAssemblyTree { model, children }
    }
}

/// All models of one or more assemblies, keyed by the text of their UUID.
#[derive(Clone, Debug)]
pub struct FlatBom {
    pub inner: TextMap<Model>,
}

/// A model found to match another one. `percentage` holds the IEEE-754
/// bit pattern of the match score, which the library carries unchanged.
#[derive(Clone, Debug, Default)]
pub struct ModelMatch {
    pub model: Model,
    pub percentage: u64,
    pub comparison_url: Option<String>,
}

pub struct ModelMatchView {
    pub model: ModelView,
    pub percentage: u64,
    pub comparison_url: Option<Seq<char>>,
}

impl View for ModelMatch {
    type V = ModelMatchView;

    open spec fn view(&self) -> ModelMatchView {
        ModelMatchView {
            model: self.model@,
            percentage: self.percentage,
            comparison_url: self.comparison_url.deep_view(),
        }
    }
}

impl DeepView for ModelMatch {
    type V = ModelMatchView;

    open spec fn deep_view(&self) -> ModelMatchView {
        self@
    }
}

impl ModelMatch {
    pub fn new(model: Model, percentage: u64, comparison_url: Option<String>) -> (m: ModelMatch)
        ensures
            m.model == model,
            m.percentage == percentage,
            m.comparison_url == comparison_url,
    {
        ModelMatch { model, percentage, comparison_url }
    }

    /// A copy of the match.
    pub fn duplicate(&self) -> (copy: ModelMatch)
        ensures
            copy@ == self@,
    {
        ModelMatch {
            model: self.model.duplicate(),
            percentage: self.percentage,
            comparison_url: duplicate_text(&self.comparison_url),
        }
    }
}

/// The matches of one model.
#[derive(Clone, Debug, Default)]
pub struct ListOfModelMatches {
    pub inner: Box<Vec<ModelMatch>>,
}

impl ListOfModelMatches {
    pub fn new(matches: Box<Vec<ModelMatch>>) -> (list: ListOfModelMatches)
        ensures
            list.inner == matches,
    {
        ListOfModelMatches { inner: matches }
    }
}

/// A model found by visual similarity.
#[derive(Clone, Debug, Default)]
pub struct VisuallyMatchedModel {
    pub file_name: String,
    pub file_type: String,
    pub folder_id: u32,
    pub uuid: u128,
    pub is_assembly: bool,
    pub name: String,
    pub units: String,
    pub state: String,
}

/// Visually similar models.
#[derive(Clone, Debug, Default)]
pub struct ListOfVisualModelMatches {
    pub models: Box<Vec<VisuallyMatchedModel>>,
}

impl ListOfVisualModelMatches {
    pub fn new(models: Box<Vec<VisuallyMatchedModel>>) -> (list: ListOfVisualModelMatches)
        ensures
            list.models == models,
    {
        ListOfVisualModelMatches { models }
    }
}

/// One entry of a visual match reply.
#[derive(Clone, Debug, Default)]
pub struct VisualMatchItem {
    pub model: VisuallyMatchedModel,
}

/// A model with the index of its node in an assembly graph.
#[derive(Clone, Debug, Default)]
pub struct ModelNodeIndex {
    pub uuid: String,
    pub name: String,
    pub node_index: u16,
}

/// A source model and the models that duplicate it.
#[derive(Clone, Debug, Default)]
pub struct ModelMatchReportItem {
    pub uuid: String,
    pub name: String,
    pub folder_name: String,
    pub matches: Vec<ModelMatch>,
}

/// Duplicates found for a set of models, keyed by the text of each source
/// model's UUID.
#[derive(Clone, Debug)]
pub struct SimpleDuplicatesMatchReport {
    pub inner: TextMap<ModelMatchReportItem>,
}

impl SimpleDuplicatesMatchReport {
    pub fn new() -> (report: SimpleDuplicatesMatchReport)
        ensures
            report.inner.keys() == Seq::<Seq<char>>::empty(),
            report.inner.spec_map() == Map::<Seq<char>, ModelMatchReportItem>::empty(),
    {
        SimpleDuplicatesMatchReport { inner: TextMap::new() }
    }
}

/// The number of models of one folder with a given file type and state.
#[derive(Clone, Debug, Default)]
pub struct ModelStatusRecord {
    pub folder_id: u32,
    pub folder_name: String,
    pub file_type: String,
    pub state: String,
    pub count: u64,
}

impl ModelStatusRecord {
    pub fn new(folder_id: u32, folder_name: String, file_type: String, state: String, count: u64) -> (r:
        ModelStatusRecord)
        ensures
            r.folder_id == folder_id,
            r.folder_name@ == folder_name@,
            r.file_type@ == file_type@,
            r.state@ == state@,
            r.count == count,
    {
        ModelStatusRecord { folder_id, folder_name, file_type, state, count }
    }
}

/// Model counts by folder, file type and state.
#[derive(Clone, Debug, Default)]
pub struct EnvironmentStatusReport {
    pub stats: Vec<ModelStatusRecord>,
}

impl EnvironmentStatusReport {
    pub fn new() -> (r: EnvironmentStatusReport)
        ensures
            r.stats@ == Seq::<ModelStatusRecord>::empty(),
    {
        EnvironmentStatusReport { stats: Vec::new() }
    }
}

/// A model's place in an assembly graph: its name, node index and UUID.
#[derive(Clone, Debug, Default)]
pub struct PartNodeDictionaryItem {
    pub name: String,
    pub node: usize,
    pub uuid: u128,
}

/// The service's reply to a folder creation.
#[derive(Clone, Debug, Default)]
pub struct FolderCreateResponse {
    pub folder: Folder,
}

/// The service's reply to setting a model property.
#[derive(Clone, Debug, Default)]
pub struct ModelCreateMetadataResponse {
    pub metadata: ModelMetadataItem,
}

/// A label of a geometric classifier.
#[derive(Clone, Debug, Default)]
pub struct GeoLabel {
    pub id: u32,
    pub name: String,
    pub geo_classifier_id: u32,
}

/// The labels of a classifier.
#[derive(Clone, Debug, Default)]
pub struct ListOfGeoLabels {
    pub labels: Vec<GeoLabel>,
}

impl ListOfGeoLabels {
    pub fn new(labels: Vec<GeoLabel>) -> (list: ListOfGeoLabels)
        ensures
            list.labels == labels,
    {
        ListOfGeoLabels { labels }
    }
}

/// A classifier prediction. `confidence` holds the IEEE-754 bit pattern of
/// the confidence score.
#[derive(Clone, Debug, Default)]
pub struct GeoMatch {
    pub model: Model,
    pub confidence: u64,
    pub label_id: u32,
}

impl GeoMatch {
    pub fn new(model: Model, confidence: u64, label_id: u32) -> (m: GeoMatch)
        ensures
            m.model == model,
            m.confidence == confidence,
            m.label_id == label_id,
    {
        GeoMatch { model, confidence, label_id }
    }
}

/// A model found by an image search.
#[derive(Clone, Debug, Default)]
pub struct ImageMatch {
    pub model: Model,
}

impl ImageMatch {
    pub fn new(model: Model) -> (m: ImageMatch)
        ensures
            m.model == model,
    {
        ImageMatch { model }
    }
}

/// Classifier predictions.
#[derive(Clone, Debug, Default)]
pub struct ListOfGeoClassifierPredictions {
    pub matches: Vec<GeoMatch>,
}

impl ListOfGeoClassifierPredictions {
    pub fn new(matches: Vec<GeoMatch>) -> (list: ListOfGeoClassifierPredictions)
        ensures
            list.matches == matches,
    {
        ListOfGeoClassifierPredictions { matches }
    }
}

/// A property value inferred for a model from a matching model. `score`
/// holds the IEEE-754 bit pattern of the match score it came with.
#[derive(Clone, Debug, Default)]
pub struct MatchedMetadataItem {
    pub uuid: u128,
    pub name: String,
    pub value: String,
    pub score: u64,
}

impl MatchedMetadataItem {
    pub fn new(uuid: u128, name: String, value: String, score: u64) -> (item: MatchedMetadataItem)
        ensures
            item.uuid == uuid,
            item.name@ == name@,
            item.value@ == value@,
            item.score == score,
    {
        MatchedMetadataItem { uuid, name, value, score }
    }
}

/// Inferred property values.
#[derive(Clone, Debug, Default)]
pub struct ListOfMatchedMetadataItems {
    pub items: Vec<MatchedMetadataItem>,
}

impl ListOfMatchedMetadataItems {
    pub fn new(items: Vec<MatchedMetadataItem>) -> (list: ListOfMatchedMetadataItems)
        ensures
            list.items == items,
    {
        ListOfMatchedMetadataItems { items }
    }
}

} // verus!
