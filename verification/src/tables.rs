//! CSV rendering of the data model. Metadata property names become extra
//! columns, sorted, each holding the value of that property of the row's
//! model (the last one of that name) or nothing.

use vstd::prelude::*;
use crate::csv_text::{csv_line, csv_lines, csv_table};
use crate::model::{
    EnvironmentStatusReport, FlatBom, Folder, FolderView, GeoLabel, ListOfFolders, ListOfGeoLabels,
    ListOfModels, ListOfVisualModelMatches, MetadataItemView, Model, ModelMetadata,
    ModelMetadataItem, ModelStatusRecord, ModelView, ParsingError, PropertyCollection,
    VisuallyMatchedModel,
};
use crate::names::{insert_sorted, lemma_sorted_names_is, sorted_names, strictly_sorted};
use crate::text::{bool_to_string, decimal_text, str_eq, u64_to_string, uuid_text, uuid_to_string};

verus! {

/// The names of a list of metadata items.
pub open spec fn item_names(items: Seq<MetadataItemView>) -> Set<Seq<char>>
    decreases items.len(),
{
    if items.len() == 0 {
        Set::empty()
    } else {
        item_names(items.drop_last()).insert(items.last().name)
    }
}

/// The names of items are exactly the names some item has.
pub proof fn lemma_item_names_are_names(items: Seq<MetadataItemView>)
    ensures
        forall|n: Seq<char>| #[trigger] item_names(items).contains(n) <==> exists|k: int|
            0 <= k < items.len() && (#[trigger] items[k]).name == n,
    decreases items.len(),
{
    if items.len() > 0 {
        let init = items.drop_last();
        lemma_item_names_are_names(init);
        assert forall|n: Seq<char>| #[trigger] item_names(items).contains(n) <==> exists|k: int|
            0 <= k < items.len() && (#[trigger] items[k]).name == n by {
            if exists|k: int| 0 <= k < items.len() && (#[trigger] items[k]).name == n {
                let k = choose|k: int| 0 <= k < items.len() && (#[trigger] items[k]).name == n;
                if k < items.len() - 1 {
                    assert(init[k] == items[k]);
                }
            }
            if item_names(init).contains(n) {
                let k = choose|k: int| 0 <= k < init.len() && (#[trigger] init[k]).name == n;
                assert(items[k] == init[k]);
            }
            assert(items[items.len() - 1] == items.last());
        }
    }
}

/// The names of a model's metadata, if it has any.
pub open spec fn meta_names(meta: Option<Seq<MetadataItemView>>) -> Set<Seq<char>> {
    match meta {
        Some(items) => item_names(items),
        None => Set::empty(),
    }
}

/// The metadata names of all models of a list.
pub open spec fn models_meta_names(models: Seq<ModelView>) -> Set<Seq<char>>
    decreases models.len(),
{
    if models.len() == 0 {
        Set::empty()
    } else {
        models_meta_names(models.drop_last()).union(meta_names(models.last().metadata))
    }
}

/// The value of the last item with the given name, or the empty text.
pub open spec fn last_value(items: Seq<MetadataItemView>, name: Seq<char>) -> Seq<char>
    decreases items.len(),
{
    if items.len() == 0 {
        Seq::empty()
    } else if items.last().name == name {
        items.last().value
    } else {
        last_value(items.drop_last(), name)
    }
}

/// The cell of a property column for a model.
pub open spec fn meta_value(meta: Option<Seq<MetadataItemView>>, name: Seq<char>) -> Seq<char> {
    match meta {
        Some(items) => last_value(items, name),
        None => Seq::empty(),
    }
}

/// The property cells of a model for the given columns.
pub open spec fn meta_cells(meta: Option<Seq<MetadataItemView>>, columns: Seq<Seq<char>>) -> Seq<
    Seq<char>,
> {
    Seq::new(columns.len(), |i: int| meta_value(meta, columns[i]))
}

pub open spec fn bool_text(b: bool) -> Seq<char> {
    if b { "true"@ } else { "false"@ }
}

/// The leading cells of a model row: id, name, folder, assembly flag, file
/// type, units and state.
pub open spec fn model_fields(m: ModelView) -> Seq<Seq<char>> {
    seq![
        uuid_text(m.uuid as nat),
        m.name,
        decimal_text(m.folder_id as nat),
        bool_text(m.is_assembly),
        m.file_type,
        m.units,
        m.state,
    ]
}

/// Column names of the leading model cells.
pub open spec fn model_header() -> Seq<Seq<char>> {
    seq!["ID"@, "NAME"@, "FOLDER_ID"@, "IS_ASSEMBLY"@, "FILE_TYPE"@, "UNITS"@, "STATE"@]
}

/// The value of a property in a model's cells is that of its last item of
/// that name, and empty when no item has the name.
pub proof fn lemma_last_value_is_last_item(items: Seq<MetadataItemView>, name: Seq<char>)
    ensures
        (forall|i: int| 0 <= i < items.len() ==> (#[trigger] items[i]).name != name) ==> last_value(items, name)
            == Seq::<char>::empty(),
        (exists|i: int| 0 <= i < items.len() && (#[trigger] items[i]).name == name) ==> exists|i: int|
            0 <= i < items.len() && (#[trigger] items[i]).name == name && last_value(items, name) == items[i].value
                && forall|j: int| i < j < items.len() ==> (#[trigger] items[j]).name != name,
    decreases items.len(),
{
    if items.len() > 0 {
        let init = items.drop_last();
        let n = items.len() - 1;
        lemma_last_value_is_last_item(init, name);
        assert(items[n] == items.last());
        assert forall|i: int| 0 <= i < n implies #[trigger] init[i] == items[i] by {}
        if items.last().name != name {
            if exists|i: int| 0 <= i < items.len() && (#[trigger] items[i]).name == name {
                let i = choose|i: int| 0 <= i < items.len() && (#[trigger] items[i]).name == name;
                assert(init[i].name == name);
                let k = choose|k: int|
                    0 <= k < init.len() && (#[trigger] init[k]).name == name && last_value(init, name) == init[k].value
                        && forall|j: int| k < j < init.len() ==> (#[trigger] init[j]).name != name;
                assert(items[k] == init[k]);
                assert forall|j: int| k < j < items.len() implies (#[trigger] items[j]).name != name by {
                    if j < n {
                        assert(init[j] == items[j]);
                    }
                }
            } else {
                assert forall|i: int| 0 <= i < init.len() implies (#[trigger] init[i]).name != name by {
                    assert(items[i] == init[i]);
                }
            }
        }
    }
}

/// The model table lines up each column with its header: ID is the UUID
/// text, NAME the name, FOLDER_ID the folder id in decimal, IS_ASSEMBLY
/// `true` or `false`, FILE_TYPE, UNITS and STATE as the model has them,
/// and each property column holds the model's value of that property.
pub proof fn lemma_model_table_columns(m: ModelView, columns: Seq<Seq<char>>)
    ensures
        ({
            let header = model_header() + columns;
            let row = model_row(m, columns);
            &&& header.len() == row.len()
            &&& header.len() == 7 + columns.len()
            &&& header[0] == "ID"@ && row[0] == uuid_text(m.uuid as nat)
            &&& header[1] == "NAME"@ && row[1] == m.name
            &&& header[2] == "FOLDER_ID"@ && row[2] == decimal_text(m.folder_id as nat)
            &&& header[3] == "IS_ASSEMBLY"@ && row[3] == (if m.is_assembly { "true"@ } else { "false"@ })
            &&& header[4] == "FILE_TYPE"@ && row[4] == m.file_type
            &&& header[5] == "UNITS"@ && row[5] == m.units
            &&& header[6] == "STATE"@ && row[6] == m.state
            &&& forall|i: int|
                0 <= i < columns.len() ==> #[trigger] header[7 + i] == columns[i] && row[7 + i] == match m.metadata {
                    Some(items) => last_value(items, columns[i]),
                    None => Seq::<char>::empty(),
                }
        }),
{
    let header = model_header() + columns;
    let row = model_row(m, columns);
    assert forall|i: int| 0 <= i < columns.len() implies #[trigger] header[7 + i] == columns[i] && row[7 + i]
        == match m.metadata {
        Some(items) => last_value(items, columns[i]),
        None => Seq::<char>::empty(),
    } by {
        assert(row[7 + i] == meta_cells(m.metadata, columns)[i]);
    }
}

/// A full model row for the given property columns.
pub open spec fn model_row(m: ModelView, columns: Seq<Seq<char>>) -> Seq<Seq<char>> {
    model_fields(m) + meta_cells(m.metadata, columns)
}

/// The header line, present only for pretty output.
pub open spec fn header_text(pretty: bool, header: Seq<Seq<char>>) -> Seq<char> {
    if pretty { csv_line(header) } else { Seq::empty() }
}

/// Adds the names of the items to a sorted list of names.
pub fn add_item_names(names: &mut Vec<String>, items: &Vec<ModelMetadataItem>)
    requires
        strictly_sorted(old(names).deep_view()),
    ensures
        strictly_sorted(final(names).deep_view()),
        final(names).deep_view().to_set() == old(names).deep_view().to_set().union(
            item_names(items.deep_view()),
        ),
{
    let ghost start = names.deep_view().to_set();
    let mut i: usize = 0;
    while i < items.len()
        invariant
            i <= items.len(),
            strictly_sorted(names.deep_view()),
            names.deep_view().to_set() == start.union(item_names(items.deep_view().take(i as int))),
        decreases items.len() - i,
    {
        insert_sorted(names, &items[i].name);
        proof {
            let t = items.deep_view().take(i + 1);
            assert(t.drop_last() =~= items.deep_view().take(i as int));
            assert(names.deep_view().to_set() =~= start.union(item_names(t)));
        }
        i += 1;
    }
    proof {
        assert(items.deep_view().take(items.len() as int) =~= items.deep_view());
    }
}

/// Adds a model's metadata names to a sorted list of names.
pub fn add_meta_names(names: &mut Vec<String>, meta: &Option<Vec<ModelMetadataItem>>)
    requires
        strictly_sorted(old(names).deep_view()),
    ensures
        strictly_sorted(final(names).deep_view()),
        final(names).deep_view().to_set() == old(names).deep_view().to_set().union(
            meta_names(meta.deep_view()),
        ),
{
    match meta {
        Some(items) => add_item_names(names, items),
        None => {
            assert(names.deep_view().to_set().union(Set::empty()) =~= names.deep_view().to_set());
        },
    }
}

/// The value of the last item with the given name, or the empty text.
pub fn lookup_value(items: &Vec<ModelMetadataItem>, name: &String) -> (value: String)
    ensures
        value@ == last_value(items.deep_view(), name@),
{
    let mut i: usize = items.len();
    assert(items.deep_view().take(i as int) =~= items.deep_view());
    while i > 0
        invariant
            i <= items.len(),
            last_value(items.deep_view(), name@) == last_value(
                items.deep_view().take(i as int),
                name@,
            ),
        decreases i,
    {
        proof {
            assert(items.deep_view().take(i as int).drop_last() =~= items.deep_view().take(i - 1));
        }
        if str_eq(items[i - 1].name.as_str(), name.as_str()) {
            return items[i - 1].value.clone();
        }
        i -= 1;
    }
    String::new()
}

/// The property cells of a model for the given columns.
pub fn meta_cells_of(meta: &Option<Vec<ModelMetadataItem>>, columns: &Vec<String>) -> (cells: Vec<
    String,
>)
    ensures
        cells.deep_view() == meta_cells(meta.deep_view(), columns.deep_view()),
{
    let mut cells: Vec<String> = Vec::new();
    let mut i: usize = 0;
    while i < columns.len()
        invariant
            i <= columns.len(),
            cells.deep_view() =~= meta_cells(meta.deep_view(), columns.deep_view()).take(i as int),
        decreases columns.len() - i,
    {
        let value = match meta {
            Some(items) => lookup_value(items, &columns[i]),
            None => String::new(),
        };
        let ghost before = cells.deep_view();
        cells.push(value);
        proof {
            assert(cells.deep_view() =~= before.push(value@));
        }
        i += 1;
    }
    cells
}

/// The leading cells of a model row.
pub fn model_fields_of(m: &Model) -> (cells: Vec<String>)
    ensures
        cells.deep_view() == model_fields(m@),
{
    let mut cells: Vec<String> = Vec::new();
    cells.push(uuid_to_string(m.uuid));
    cells.push(m.name.clone());
    cells.push(u64_to_string(m.folder_id as u64));
    cells.push(bool_to_string(m.is_assembly));
    cells.push(m.file_type.clone());
    cells.push(m.units.clone());
    cells.push(m.state.clone());
    assert(cells.deep_view() =~= model_fields(m@));
    cells
}

/// The header of model rows followed by the property columns.
pub fn model_header_with(columns: &Vec<String>) -> (header: Vec<String>)
    ensures
        header.deep_view() == model_header() + columns.deep_view(),
{
    let mut header: Vec<String> = Vec::new();
    header.push(String::from_str("ID"));
    header.push(String::from_str("NAME"));
    header.push(String::from_str("FOLDER_ID"));
    header.push(String::from_str("IS_ASSEMBLY"));
    header.push(String::from_str("FILE_TYPE"));
    header.push(String::from_str("UNITS"));
    header.push(String::from_str("STATE"));
    append_copies(&mut header, columns);
    assert(header.deep_view() =~= model_header() + columns.deep_view());
    header
}

/// Appends copies of the given texts.
pub fn append_copies(target: &mut Vec<String>, texts: &Vec<String>)
    ensures
        final(target).deep_view() == old(target).deep_view() + texts.deep_view(),
{
    let ghost start = target.deep_view();
    let mut i: usize = 0;
    while i < texts.len()
        invariant
            i <= texts.len(),
            target.deep_view() =~= start + texts.deep_view().take(i as int),
        decreases texts.len() - i,
    {
        let ghost before = target.deep_view();
        target.push(texts[i].clone());
        proof {
            assert(target.deep_view() =~= before.push(texts[i as int]@));
        }
        i += 1;
    }
    assert(texts.deep_view().take(texts.len() as int) =~= texts.deep_view());
}

/// The full row of a model for the given property columns.
pub fn model_row_of(m: &Model, columns: &Vec<String>) -> (row: Vec<String>)
    ensures
        row.deep_view() == model_row(m@, columns.deep_view()),
{
    let mut row = model_fields_of(m);
    let cells = meta_cells_of(&m.metadata, columns);
    append_copies(&mut row, &cells);
    row
}

/// Starts a table: the header row when pretty output is asked for.
pub fn start_table(pretty: bool, header: Vec<String>) -> (rows: Vec<Vec<String>>)
    ensures
        csv_lines(rows.deep_view()) == header_text(pretty, header.deep_view()),
{
    let mut rows: Vec<Vec<String>> = Vec::new();
    if pretty {
        rows.push(header);
        proof {
            assert(rows.deep_view().drop_last() =~= Seq::<Seq<Seq<char>>>::empty());
            assert(csv_lines(Seq::<Seq<Seq<char>>>::empty()) == Seq::<char>::empty());
            assert(csv_lines(rows.deep_view()) =~= csv_line(header.deep_view()));
        }
    } else {
        assert(csv_lines(rows.deep_view()) == Seq::<char>::empty());
    }
    rows
}

/// Appends a row to a table under construction.
pub fn push_row(rows: &mut Vec<Vec<String>>, row: Vec<String>)
    ensures
        csv_lines(final(rows).deep_view()) == csv_lines(old(rows).deep_view()) + csv_line(
            row.deep_view(),
        ),
{
    let ghost before = rows.deep_view();
    let ghost r = row.deep_view();
    rows.push(row);
    proof {
        assert(rows.deep_view().drop_last() =~= before);
        assert(rows.deep_view().last() == r);
    }
}

/// The rows of a list of models.
pub open spec fn model_rows(models: Seq<ModelView>, columns: Seq<Seq<char>>) -> Seq<
    Seq<Seq<char>>,
> {
    Seq::new(models.len(), |i: int| model_row(models[i], columns))
}

impl ListOfModels {
    /// The sorted names of the metadata properties of all models.
    pub fn property_columns(&self) -> (columns: Vec<String>)
        ensures
            columns.deep_view() == sorted_names(models_meta_names(self.models.deep_view())),
    {
        let mut columns: Vec<String> = Vec::new();
        let mut i: usize = 0;
        proof {
            assert(Seq::<Seq<char>>::empty().to_set() =~= Set::empty());
        }
        while i < self.models.len()
            invariant
                i <= self.models.len(),
                strictly_sorted(columns.deep_view()),
                columns.deep_view().to_set() == models_meta_names(
                    self.models.deep_view().take(i as int),
                ),
            decreases self.models.len() - i,
        {
            add_meta_names(&mut columns, &self.models[i].metadata);
            proof {
                let t = self.models.deep_view().take(i + 1);
                assert(t.drop_last() =~= self.models.deep_view().take(i as int));
            }
            i += 1;
        }
        proof {
            assert(self.models.deep_view().take(self.models.len() as int) =~= self.models.deep_view());
            lemma_sorted_names_is(columns.deep_view());
        }
        columns
    }

    /// The models as CSV: an optional header, then one row per model with
    /// the standard cells and one cell per metadata property name found in
    /// any of the models, sorted by name.
    pub fn to_csv(&self, pretty: bool) -> (result: Result<String, ParsingError>)
        ensures
            result matches Ok(text) && text@ == ({
                let columns = sorted_names(models_meta_names(self.models.deep_view()));
                header_text(pretty, model_header() + columns) + csv_lines(
                    model_rows(self.models.deep_view(), columns),
                )
            }),
    {
        let columns = self.property_columns();
        let header = model_header_with(&columns);
        let mut rows = start_table(pretty, header);
        let ghost head = csv_lines(rows.deep_view());
        let ghost all = model_rows(self.models.deep_view(), columns.deep_view());
        let mut i: usize = 0;
        while i < self.models.len()
            invariant
                i <= self.models.len(),
                all == model_rows(self.models.deep_view(), columns.deep_view()),
                csv_lines(rows.deep_view()) == head + csv_lines(all.take(i as int)),
            decreases self.models.len() - i,
        {
            push_row(&mut rows, model_row_of(&self.models[i], &columns));
            proof {
                assert(all.take(i + 1).drop_last() =~= all.take(i as int));
            }
            i += 1;
        }
        proof {
            assert(all.take(self.models.len() as int) =~= all);
        }
        Ok(csv_table(&rows))
    }
}

impl Model {
    /// The sorted names of this model's metadata properties.
    pub fn property_columns(&self) -> (columns: Vec<String>)
        ensures
            columns.deep_view() == sorted_names(meta_names(self@.metadata)),
    {
        let mut columns: Vec<String> = Vec::new();
        add_meta_names(&mut columns, &self.metadata);
        proof {
            assert(Seq::<Seq<char>>::empty().to_set() =~= Set::empty());
            assert(columns.deep_view().to_set() =~= meta_names(self@.metadata));
            lemma_sorted_names_is(columns.deep_view());
        }
        columns
    }

    /// The model as CSV: an optional header, then one row with the standard
    /// cells and one cell per metadata property name, sorted by name.
    pub fn to_csv(&self, pretty: bool) -> (result: Result<String, ParsingError>)
        ensures
            result matches Ok(text) && text@ == ({
                let columns = sorted_names(meta_names(self@.metadata));
                header_text(pretty, model_header() + columns) + csv_line(model_row(self@, columns))
            }),
    {
        let columns = self.property_columns();
        let header = model_header_with(&columns);
        let mut rows = start_table(pretty, header);
        let ghost before = rows.deep_view();
        rows.push(model_row_of(self, &columns));
        proof {
            assert(rows.deep_view().drop_last() =~= before);
        }
        Ok(csv_table(&rows))
    }
}


/// A list of texts made from literals.
pub fn texts2(a: &str, b: &str) -> (v: Vec<String>)
    ensures
        v.deep_view() == seq![a@, b@],
{
    let mut v: Vec<String> = Vec::new();
    v.push(String::from_str(a));
    v.push(String::from_str(b));
    assert(v.deep_view() =~= seq![a@, b@]);
    v
}

/// A list of three texts.
pub fn texts3(a: &str, b: &str, c: &str) -> (v: Vec<String>)
    ensures
        v.deep_view() == seq![a@, b@, c@],
{
    let mut v = texts2(a, b);
    let ghost before = v.deep_view();
    let t = String::from_str(c);
    v.push(t);
    assert(v.deep_view() =~= before.push(c@));
    assert(v.deep_view() =~= seq![a@, b@, c@]);
    v
}

/// The row of a folder: id and name.
pub open spec fn folder_row(f: FolderView) -> Seq<Seq<char>> {
    seq![decimal_text(f.id as nat), f.name]
}

fn folder_row_of(f: &Folder) -> (row: Vec<String>)
    ensures
        row.deep_view() == folder_row(f@),
{
    let mut row: Vec<String> = Vec::new();
    row.push(u64_to_string(f.id as u64));
    row.push(f.name.clone());
    assert(row.deep_view() =~= folder_row(f@));
    row
}

impl Folder {
    /// The folder as CSV: an optional `ID,NAME` header, then its id and name.
    pub fn to_csv(&self, pretty: bool) -> (result: Result<String, ParsingError>)
        ensures
            result matches Ok(text) && text@ == header_text(pretty, seq!["ID"@, "NAME"@])
                + csv_line(folder_row(self@)),
    {
        let mut rows = start_table(pretty, texts2("ID", "NAME"));
        push_row(&mut rows, folder_row_of(self));
        Ok(csv_table(&rows))
    }
}

/// The rows of folders, in order.
pub open spec fn folder_rows(fs: Seq<FolderView>) -> Seq<Seq<Seq<char>>> {
    Seq::new(fs.len(), |i: int| folder_row(fs[i]))
}

impl ListOfFolders {
    /// The folders as CSV: an optional `ID,NAME` header, then one row per
    /// folder.
    pub fn to_csv(&self, pretty: bool) -> (result: Result<String, ParsingError>)
        ensures
            result matches Ok(text) && text@ == header_text(pretty, seq!["ID"@, "NAME"@])
                + csv_lines(folder_rows(self.folders.deep_view())),
    {
        let mut rows = start_table(pretty, texts2("ID", "NAME"));
        let ghost head = csv_lines(rows.deep_view());
        let ghost all = folder_rows(self.folders.deep_view());
        let mut i: usize = 0;
        while i < self.folders.len()
            invariant
                i <= self.folders.len(),
                all == folder_rows(self.folders.deep_view()),
                csv_lines(rows.deep_view()) == head + csv_lines(all.take(i as int)),
            decreases self.folders.len() - i,
        {
            push_row(&mut rows, folder_row_of(&self.folders[i]));
            proof {
                assert(all.take(i + 1).drop_last() =~= all.take(i as int));
            }
            i += 1;
        }
        proof {
            assert(all.take(self.folders.len() as int) =~= all);
        }
        Ok(csv_table(&rows))
    }
}

/// The rows of property keys: id and name.
pub open spec fn property_rows(ps: Seq<crate::model::Property>) -> Seq<Seq<Seq<char>>> {
    Seq::new(ps.len(), |i: int| seq![decimal_text(ps[i].id as nat), ps[i].name@])
}

impl PropertyCollection {
    /// The property keys as CSV: an optional `ID,NAME` header, then one row
    /// per key.
    pub fn to_csv(&self, pretty: bool) -> (result: Result<String, ParsingError>)
        ensures
            result matches Ok(text) && text@ == header_text(pretty, seq!["ID"@, "NAME"@])
                + csv_lines(property_rows(self.properties@)),
    {
        let mut rows = start_table(pretty, texts2("ID", "NAME"));
        let ghost head = csv_lines(rows.deep_view());
        let ghost all = property_rows(self.properties@);
        let mut i: usize = 0;
        while i < self.properties.len()
            invariant
                i <= self.properties.len(),
                all == property_rows(self.properties@),
                csv_lines(rows.deep_view()) == head + csv_lines(all.take(i as int)),
            decreases self.properties.len() - i,
        {
            let mut row: Vec<String> = Vec::new();
            row.push(u64_to_string(self.properties[i].id));
            row.push(self.properties[i].name.clone());
            assert(row.deep_view() =~= all[i as int]);
            push_row(&mut rows, row);
            proof {
                assert(all.take(i + 1).drop_last() =~= all.take(i as int));
            }
            i += 1;
        }
        proof {
            assert(all.take(self.properties.len() as int) =~= all);
        }
        Ok(csv_table(&rows))
    }
}

/// The rows of metadata items: name and value.
pub open spec fn metadata_rows(items: Seq<MetadataItemView>) -> Seq<Seq<Seq<char>>> {
    Seq::new(items.len(), |i: int| seq![items[i].name, items[i].value])
}

/// The rows of metadata items led by the model's UUID.
pub open spec fn enhanced_metadata_rows(uuid: u128, items: Seq<MetadataItemView>) -> Seq<
    Seq<Seq<char>>,
> {
    Seq::new(items.len(), |i: int| seq![uuid_text(uuid as nat), items[i].name, items[i].value])
}

impl ModelMetadata {
    /// The properties as CSV: an optional `NAME,VALUE` header, then one row
    /// per property.
    pub fn to_csv(&self, pretty: bool) -> (result: Result<String, ParsingError>)
        ensures
            result matches Ok(text) && text@ == header_text(pretty, seq!["NAME"@, "VALUE"@])
                + csv_lines(metadata_rows(self.properties.deep_view())),
    {
        let mut rows = start_table(pretty, texts2("NAME", "VALUE"));
        let ghost head = csv_lines(rows.deep_view());
        let ghost all = metadata_rows(self.properties.deep_view());
        let mut i: usize = 0;
        while i < self.properties.len()
            invariant
                i <= self.properties.len(),
                all == metadata_rows(self.properties.deep_view()),
                csv_lines(rows.deep_view()) == head + csv_lines(all.take(i as int)),
            decreases self.properties.len() - i,
        {
            let mut row: Vec<String> = Vec::new();
            row.push(self.properties[i].name.clone());
            row.push(self.properties[i].value.clone());
            assert(row.deep_view() =~= all[i as int]);
            push_row(&mut rows, row);
            proof {
                assert(all.take(i + 1).drop_last() =~= all.take(i as int));
            }
            i += 1;
        }
        proof {
            assert(all.take(self.properties.len() as int) =~= all);
        }
        Ok(csv_table(&rows))
    }

    /// The properties of the given model as CSV: an optional
    /// `MODEL_UUID,NAME,VALUE` header, then one row per property led by the
    /// model's UUID. This is the format the metadata upload reads.
    pub fn to_enhanced_csv(&self, uuid: &u128, pretty: bool) -> (result: Result<String, ParsingError>)
        ensures
            result matches Ok(text) && text@ == header_text(
                pretty,
                seq!["MODEL_UUID"@, "NAME"@, "VALUE"@],
            ) + csv_lines(enhanced_metadata_rows(*uuid, self.properties.deep_view())),
    {
        let mut rows = start_table(pretty, texts3("MODEL_UUID", "NAME", "VALUE"));
        let ghost head = csv_lines(rows.deep_view());
        let ghost all = enhanced_metadata_rows(*uuid, self.properties.deep_view());
        let mut i: usize = 0;
        while i < self.properties.len()
            invariant
                i <= self.properties.len(),
                all == enhanced_metadata_rows(*uuid, self.properties.deep_view()),
                csv_lines(rows.deep_view()) == head + csv_lines(all.take(i as int)),
            decreases self.properties.len() - i,
        {
            let mut row: Vec<String> = Vec::new();
            row.push(uuid_to_string(*uuid));
            row.push(self.properties[i].name.clone());
            row.push(self.properties[i].value.clone());
            assert(row.deep_view() =~= all[i as int]);
            push_row(&mut rows, row);
            proof {
                assert(all.take(i + 1).drop_last() =~= all.take(i as int));
            }
            i += 1;
        }
        proof {
            assert(all.take(self.properties.len() as int) =~= all);
        }
        Ok(csv_table(&rows))
    }
}

/// The row of a status record.
pub open spec fn status_row(r: ModelStatusRecord) -> Seq<Seq<char>> {
    seq![
        decimal_text(r.folder_id as nat),
        r.folder_name@,
        r.file_type@,
        r.state@,
        decimal_text(r.count as nat),
    ]
}

/// The header of status records.
pub open spec fn status_header() -> Seq<Seq<char>> {
    seq!["FOLDER_ID"@, "FOLDER_NAME"@, "FILE_TYPE"@, "STATE"@, "COUNT"@]
}

/// The status table lines up each column with its header: FOLDER_ID and
/// COUNT in decimal, FOLDER_NAME, FILE_TYPE and STATE as the record has
/// them.
pub proof fn lemma_status_table_columns(r: ModelStatusRecord)
    ensures
        status_header().len() == 5 && status_row(r).len() == 5,
        status_header()[0] == "FOLDER_ID"@ && status_row(r)[0] == decimal_text(r.folder_id as nat),
        status_header()[1] == "FOLDER_NAME"@ && status_row(r)[1] == r.folder_name@,
        status_header()[2] == "FILE_TYPE"@ && status_row(r)[2] == r.file_type@,
        status_header()[3] == "STATE"@ && status_row(r)[3] == r.state@,
        status_header()[4] == "COUNT"@ && status_row(r)[4] == decimal_text(r.count as nat),
{
}

impl EnvironmentStatusReport {
    /// The counts as CSV: an optional header, then one row per record.
    pub fn to_csv(&self, pretty: bool) -> (result: Result<String, ParsingError>)
        ensures
            result matches Ok(text) && text@ == header_text(pretty, status_header()) + csv_lines(
                Seq::new(self.stats@.len(), |i: int| status_row(self.stats@[i])),
            ),
    {
        let mut header = texts3("FOLDER_ID", "FOLDER_NAME", "FILE_TYPE");
        let rest = texts2("STATE", "COUNT");
        append_copies(&mut header, &rest);
        assert(header.deep_view() =~= status_header());
        let mut rows = start_table(pretty, header);
        let ghost head = csv_lines(rows.deep_view());
        let ghost all = Seq::new(self.stats@.len(), |i: int| status_row(self.stats@[i]));
        let mut i: usize = 0;
        while i < self.stats.len()
            invariant
                i <= self.stats.len(),
                all == Seq::new(self.stats@.len(), |i: int| status_row(self.stats@[i])),
                csv_lines(rows.deep_view()) == head + csv_lines(all.take(i as int)),
            decreases self.stats.len() - i,
        {
            let stat = &self.stats[i];
            let mut row: Vec<String> = Vec::new();
            row.push(u64_to_string(stat.folder_id as u64));
            row.push(stat.folder_name.clone());
            row.push(stat.file_type.clone());
            row.push(stat.state.clone());
            row.push(u64_to_string(stat.count));
            assert(row.deep_view() =~= all[i as int]);
            push_row(&mut rows, row);
            proof {
                assert(all.take(i + 1).drop_last() =~= all.take(i as int));
            }
            i += 1;
        }
        proof {
            assert(all.take(self.stats.len() as int) =~= all);
        }
        Ok(csv_table(&rows))
    }
}

/// The row of a classifier label: id, name and classifier id.
pub open spec fn label_row(l: GeoLabel) -> Seq<Seq<char>> {
    seq![decimal_text(l.id as nat), l.name@, decimal_text(l.geo_classifier_id as nat)]
}

impl ListOfGeoLabels {
    /// The labels as CSV: an optional `ID,NAME,CLASSIFIER_ID` header, then
    /// one row per label.
    pub fn to_csv(&self, pretty: bool) -> (result: Result<String, ParsingError>)
        ensures
            result matches Ok(text) && text@ == header_text(
                pretty,
                seq!["ID"@, "NAME"@, "CLASSIFIER_ID"@],
            ) + csv_lines(Seq::new(self.labels@.len(), |i: int| label_row(self.labels@[i]))),
    {
        let mut rows = start_table(pretty, texts3("ID", "NAME", "CLASSIFIER_ID"));
        let ghost head = csv_lines(rows.deep_view());
        let ghost all = Seq::new(self.labels@.len(), |i: int| label_row(self.labels@[i]));
        let mut i: usize = 0;
        while i < self.labels.len()
            invariant
                i <= self.labels.len(),
                all == Seq::new(self.labels@.len(), |i: int| label_row(self.labels@[i])),
                csv_lines(rows.deep_view()) == head + csv_lines(all.take(i as int)),
            decreases self.labels.len() - i,
        {
            let label = &self.labels[i];
            let mut row: Vec<String> = Vec::new();
            row.push(u64_to_string(label.id as u64));
            row.push(label.name.clone());
            row.push(u64_to_string(label.geo_classifier_id as u64));
            assert(row.deep_view() =~= all[i as int]);
            push_row(&mut rows, row);
            proof {
                assert(all.take(i + 1).drop_last() =~= all.take(i as int));
            }
            i += 1;
        }
        proof {
            assert(all.take(self.labels.len() as int) =~= all);
        }
        Ok(csv_table(&rows))
    }
}

/// The row of a visually matched model.
pub open spec fn visual_row(m: VisuallyMatchedModel) -> Seq<Seq<char>> {
    seq![
        uuid_text(m.uuid as nat),
        m.name@,
        decimal_text(m.folder_id as nat),
        bool_text(m.is_assembly),
        m.file_type@,
        m.units@,
        m.state@,
    ]
}

/// A visual match row has the model table's leading columns: the UUID
/// text, name, decimal folder id, `true` or `false` for assemblies, file
/// type, units and state.
pub proof fn lemma_visual_table_columns(m: VisuallyMatchedModel)
    ensures
        visual_row(m).len() == model_header().len(),
        visual_row(m)[0] == uuid_text(m.uuid as nat),
        visual_row(m)[1] == m.name@,
        visual_row(m)[2] == decimal_text(m.folder_id as nat),
        visual_row(m)[3] == (if m.is_assembly { "true"@ } else { "false"@ }),
        visual_row(m)[4] == m.file_type@,
        visual_row(m)[5] == m.units@,
        visual_row(m)[6] == m.state@,
{
}

impl ListOfVisualModelMatches {
    /// The models as CSV: an optional header with the standard model
    /// columns, then one row per model.
    pub fn to_csv(&self, pretty: bool) -> (result: Result<String, ParsingError>)
        ensures
            result matches Ok(text) && text@ == header_text(pretty, model_header()) + csv_lines(
                Seq::new(self.models@.len(), |i: int| visual_row(self.models@[i])),
            ),
    {
        let no_columns: Vec<String> = Vec::new();
        let header = model_header_with(&no_columns);
        assert(model_header() + no_columns.deep_view() =~= model_header());
        let mut rows = start_table(pretty, header);
        let ghost head = csv_lines(rows.deep_view());
        let ghost all = Seq::new(self.models@.len(), |i: int| visual_row(self.models@[i]));
        let mut i: usize = 0;
        while i < self.models.len()
            invariant
                i <= self.models@.len(),
                all == Seq::new(self.models@.len(), |i: int| visual_row(self.models@[i])),
                csv_lines(rows.deep_view()) == head + csv_lines(all.take(i as int)),
            decreases self.models@.len() - i,
        {
            let m = &self.models[i];
            let mut row: Vec<String> = Vec::new();
            row.push(uuid_to_string(m.uuid));
            row.push(m.name.clone());
            row.push(u64_to_string(m.folder_id as u64));
            row.push(bool_to_string(m.is_assembly));
            row.push(m.file_type.clone());
            row.push(m.units.clone());
            row.push(m.state.clone());
            assert(row.deep_view() =~= all[i as int]);
            push_row(&mut rows, row);
            proof {
                assert(all.take(i + 1).drop_last() =~= all.take(i as int));
            }
            i += 1;
        }
        proof {
            assert(all.take(self.models@.len() as int) =~= all);
        }
        Ok(csv_table(&rows))
    }
}

impl FlatBom {
    /// The models as CSV: an optional `UUID,NAME` header, then one row per
    /// entry, in entry order, with the key and the model's name.
    pub fn to_csv(&self, pretty: bool) -> (result: Result<String, ParsingError>)
        ensures
            result matches Ok(text) && text@ == header_text(pretty, seq!["UUID"@, "NAME"@])
                + csv_lines(
                Seq::new(
                    self.inner.keys().len(),
                    |i: int| seq![self.inner.keys()[i], self.inner.values()[i].name@],
                ),
            ),
    {
        let mut rows = start_table(pretty, texts2("UUID", "NAME"));
        let ghost head = csv_lines(rows.deep_view());
        let ghost all = Seq::new(
            self.inner.keys().len(),
            |i: int| seq![self.inner.keys()[i], self.inner.values()[i].name@],
        );
        let entries = self.inner.entries();
        proof {
            self.inner.lemma_domain();
            assert forall|j: int| 0 <= j < entries@.len() implies #[trigger] entries@[j].0@
                == self.inner.keys()[j] && entries@[j].1 == self.inner.values()[j] by {
                assert(entries@[j].0@ == self.inner.keys()[j]);
                assert(entries@[j].1 == self.inner.values()[j]);
            }
        }
        let mut i: usize = 0;
        while i < entries.len()
            invariant
                i <= entries@.len(),
                entries@.len() == self.inner.keys().len(),
                forall|j: int| 0 <= j < entries@.len() ==> #[trigger] entries@[j].0@
                    == self.inner.keys()[j] && entries@[j].1 == self.inner.values()[j],
                all == Seq::new(
                    self.inner.keys().len(),
                    |i: int| seq![self.inner.keys()[i], self.inner.values()[i].name@],
                ),
                csv_lines(rows.deep_view()) == head + csv_lines(all.take(i as int)),
            decreases entries@.len() - i,
        {
            let mut row: Vec<String> = Vec::new();
            row.push(entries[i].0.clone());
            row.push(entries[i].1.name.clone());
            assert(entries@[i as int].0@ == self.inner.keys()[i as int]);
            assert(row.deep_view() =~= all[i as int]);
            push_row(&mut rows, row);
            proof {
                assert(all.take(i + 1).drop_last() =~= all.take(i as int));
            }
            i += 1;
        }
        proof {
            assert(all.take(entries@.len() as int) =~= all);
        }
        Ok(csv_table(&rows))
    }
}

} // verus!
