//! CSV rendering of lists whose rows carry a score. Scores are floating
//! point numbers, which the library carries as bit patterns; their text is
//! given by the caller, one text per row, in row order.

use vstd::prelude::*;
use crate::csv_text::{csv_lines, csv_table};
use crate::model::{
    ListOfGeoClassifierPredictions, ListOfMatchedMetadataItems, ListOfModelMatches,
    ModelMatchReportItem, ModelMatchView, ModelView, ParsingError, SimpleDuplicatesMatchReport,
};
use crate::names::{lemma_sorted_names_is, sorted_names, strictly_sorted};
use crate::tables::{last_value, 
    add_meta_names, append_copies, bool_text, header_text, meta_cells, meta_cells_of, model_header,
    model_header_with, model_row, model_row_of, models_meta_names, push_row, start_table, texts2,
    texts3,
};
use crate::text::{bool_to_string, decimal_text, u64_to_string, uuid_text, uuid_to_string};

verus! {

/// The models of a list of matches.
pub open spec fn match_models(ms: Seq<ModelMatchView>) -> Seq<ModelView> {
    Seq::new(ms.len(), |i: int| ms[i].model)
}

/// Sorted names of the metadata properties of the matched models.
fn match_columns(ms: &Vec<crate::model::ModelMatch>, columns: &mut Vec<String>)
    requires
        strictly_sorted(old(columns).deep_view()),
    ensures
        strictly_sorted(final(columns).deep_view()),
        final(columns).deep_view().to_set() == old(columns).deep_view().to_set().union(
            models_meta_names(match_models(ms.deep_view())),
        ),
{
    let ghost start = columns.deep_view().to_set();
    let ghost all = match_models(ms.deep_view());
    let mut i: usize = 0;
    assert(all.take(0) =~= Seq::<ModelView>::empty());
    assert(start.union(Set::empty()) =~= start);
    while i < ms.len()
        invariant
            i <= ms.len(),
            all == match_models(ms.deep_view()),
            strictly_sorted(columns.deep_view()),
            columns.deep_view().to_set() == start.union(models_meta_names(all.take(i as int))),
        decreases ms.len() - i,
    {
        add_meta_names(columns, &ms[i].model.metadata);
        proof {
            assert(all.take(i + 1).drop_last() =~= all.take(i as int));
            assert(columns.deep_view().to_set() =~= start.union(models_meta_names(all.take(i + 1))));
        }
        i += 1;
    }
    assert(all.take(ms.len() as int) =~= all);
}

/// The header of match rows: the score, then the model columns.
pub open spec fn match_header(columns: Seq<Seq<char>>) -> Seq<Seq<char>> {
    seq!["MATCH_PERCENTAGE"@] + model_header() + columns
}

/// The rows of matches: each score text, then the model's row.
pub open spec fn match_rows(
    ms: Seq<ModelMatchView>,
    scores: Seq<Seq<char>>,
    columns: Seq<Seq<char>>,
) -> Seq<Seq<Seq<char>>> {
    Seq::new(ms.len(), |i: int| seq![scores[i]] + model_row(ms[i].model, columns))
}

impl ListOfModelMatches {
    /// The sorted names of the metadata properties of all matched models.
    pub fn property_columns(&self) -> (columns: Vec<String>)
        ensures
            columns.deep_view() == sorted_names(
                models_meta_names(match_models(self.inner.deep_view())),
            ),
    {
        let mut columns: Vec<String> = Vec::new();
        assert(Seq::<Seq<char>>::empty().to_set() =~= Set::empty());
        match_columns(&self.inner, &mut columns);
        proof {
            assert(columns.deep_view().to_set() =~= models_meta_names(
                match_models(self.inner.deep_view()),
            ));
            lemma_sorted_names_is(columns.deep_view());
        }
        columns
    }

    /// The matches as CSV: an optional header, then per match its score
    /// text (`scores`, one per match in order), the standard model cells and
    /// one cell per metadata property name of any matched model, sorted.
    pub fn to_csv_with_scores(&self, pretty: bool, scores: &Vec<String>) -> (result: Result<
        String,
        ParsingError,
    >)
        requires
            scores@.len() == self.inner@.len(),
        ensures
            result matches Ok(text) && text@ == ({
                let columns = sorted_names(models_meta_names(match_models(self.inner.deep_view())));
                header_text(pretty, match_header(columns)) + csv_lines(
                    match_rows(self.inner.deep_view(), scores.deep_view(), columns),
                )
            }),
    {
        let columns = self.property_columns();
        let mut header: Vec<String> = Vec::new();
        header.push(String::from_str("MATCH_PERCENTAGE"));
        let rest = model_header_with(&columns);
        let ghost first = header.deep_view();
        append_copies(&mut header, &rest);
        assert(header.deep_view() =~= match_header(columns.deep_view()));
        let mut rows = start_table(pretty, header);
        let ghost head = csv_lines(rows.deep_view());
        let ghost all = match_rows(self.inner.deep_view(), scores.deep_view(), columns.deep_view());
        let mut i: usize = 0;
        while i < self.inner.len()
            invariant
                i <= self.inner@.len(),
                scores@.len() == self.inner@.len(),
                all == match_rows(self.inner.deep_view(), scores.deep_view(), columns.deep_view()),
                csv_lines(rows.deep_view()) == head + csv_lines(all.take(i as int)),
            decreases self.inner@.len() - i,
        {
            let mut row: Vec<String> = Vec::new();
            row.push(scores[i].clone());
            let model_cells = model_row_of(&self.inner[i].model, &columns);
            append_copies(&mut row, &model_cells);
            assert(row.deep_view() =~= all[i as int]);
            push_row(&mut rows, row);
            proof {
                assert(all.take(i + 1).drop_last() =~= all.take(i as int));
            }
            i += 1;
        }
        proof {
            assert(all.take(self.inner@.len() as int) =~= all);
        }
        Ok(csv_table(&rows))
    }
}

/// The matched models of all report items, item by item.
pub open spec fn report_models(items: Seq<ModelMatchReportItem>) -> Seq<ModelView>
    decreases items.len(),
{
    if items.len() == 0 {
        Seq::empty()
    } else {
        report_models(items.drop_last()) + match_models(items.last().matches.deep_view())
    }
}

/// The header of a duplicates report.
pub open spec fn report_header(columns: Seq<Seq<char>>) -> Seq<Seq<char>> {
    seq![
        "MODEL_NAME"@,
        "MATCHING_MODEL_NAME"@,
        "MATCH"@,
        "SOURCE_UUID"@,
        "MATCHING_UUID"@,
        "SOURCE_FOLDER_NAME"@,
        "MATCHING_FOLDER_NAME"@,
        "COMPARISON_URL"@,
    ] + columns
}

/// The text of an optional value, empty when absent.
pub open spec fn or_empty(t: Option<Seq<char>>) -> Seq<char> {
    match t {
        Some(s) => s,
        None => Seq::empty(),
    }
}

/// The row of one match of a report item.
pub open spec fn report_row(
    item: ModelMatchReportItem,
    m: ModelMatchView,
    score: Seq<char>,
    columns: Seq<Seq<char>>,
) -> Seq<Seq<char>> {
    seq![
        item.name@,
        m.model.name,
        score,
        item.uuid@,
        uuid_text(m.model.uuid as nat),
        item.folder_name@,
        or_empty(m.model.folder_name),
        or_empty(m.comparison_url),
    ] + meta_cells(m.model.metadata, columns)
}

/// The rows of a report item, one per match.
pub open spec fn item_rows(
    item: ModelMatchReportItem,
    scores: Seq<Seq<char>>,
    columns: Seq<Seq<char>>,
) -> Seq<Seq<Seq<char>>> {
    Seq::new(
        item.matches@.len(),
        |j: int| report_row(item, item.matches.deep_view()[j], scores[j], columns),
    )
}

/// The rows of all report items, item by item.
pub open spec fn report_rows(
    items: Seq<ModelMatchReportItem>,
    scores: Seq<Seq<Seq<char>>>,
    columns: Seq<Seq<char>>,
) -> Seq<Seq<Seq<char>>>
    decreases items.len(),
{
    if items.len() == 0 {
        Seq::empty()
    } else {
        report_rows(items.drop_last(), scores.drop_last(), columns) + item_rows(
            items.last(),
            scores.last(),
            columns,
        )
    }
}

/// Scores shaped like the matches of the items.
pub open spec fn scores_fit(items: Seq<ModelMatchReportItem>, scores: Seq<Seq<Seq<char>>>) -> bool {
    &&& scores.len() == items.len()
    &&& forall|i: int| 0 <= i < items.len() ==> (#[trigger] scores[i]).len() == items[i].matches@.len()
}

/// The duplicates table lines up each column with its header: the source
/// and matching model names, the score, both UUIDs, both folder names, the
/// comparison link, then each property column with the matching model's
/// value of that property.
pub proof fn lemma_report_table_columns(
    item: ModelMatchReportItem,
    m: ModelMatchView,
    score: Seq<char>,
    columns: Seq<Seq<char>>,
)
    ensures
        ({
            let header = report_header(columns);
            let row = report_row(item, m, score, columns);
            &&& header.len() == row.len()
            &&& header.len() == 8 + columns.len()
            &&& header[0] == "MODEL_NAME"@ && row[0] == item.name@
            &&& header[1] == "MATCHING_MODEL_NAME"@ && row[1] == m.model.name
            &&& header[2] == "MATCH"@ && row[2] == score
            &&& header[3] == "SOURCE_UUID"@ && row[3] == item.uuid@
            &&& header[4] == "MATCHING_UUID"@ && row[4] == uuid_text(m.model.uuid as nat)
            &&& header[5] == "SOURCE_FOLDER_NAME"@ && row[5] == item.folder_name@
            &&& header[6] == "MATCHING_FOLDER_NAME"@ && row[6] == (match m.model.folder_name {
                Some(n) => n,
                None => Seq::<char>::empty(),
            })
            &&& header[7] == "COMPARISON_URL"@ && row[7] == (match m.comparison_url {
                Some(u) => u,
                None => Seq::<char>::empty(),
            })
            &&& forall|i: int|
                0 <= i < columns.len() ==> #[trigger] header[8 + i] == columns[i] && row[8 + i] == match m.model.metadata {
                    Some(items) => last_value(items, columns[i]),
                    None => Seq::<char>::empty(),
                }
        }),
{
    let row = report_row(item, m, score, columns);
    assert forall|i: int| 0 <= i < columns.len() implies #[trigger] report_header(columns)[8 + i] == columns[i]
        && row[8 + i] == match m.model.metadata {
        Some(items) => last_value(items, columns[i]),
        None => Seq::<char>::empty(),
    } by {
        assert(row[8 + i] == meta_cells(m.model.metadata, columns)[i]);
    }
}

/// The matches table puts the score under MATCH_PERCENTAGE, then the model
/// table's columns with the matched model's cells.
pub proof fn lemma_match_table_columns(m: ModelMatchView, score: Seq<char>, columns: Seq<Seq<char>>)
    ensures
        match_header(columns).len() == 8 + columns.len(),
        match_header(columns)[0] == "MATCH_PERCENTAGE"@,
        forall|i: int| 0 <= i < 7 + columns.len() ==> #[trigger] match_header(columns)[1 + i] == (model_header() + columns)[i],
        (seq![score] + model_row(m.model, columns))[0] == score,
        forall|i: int| 0 <= i < 7 + columns.len() ==> #[trigger] (seq![score] + model_row(m.model, columns))[1 + i]
            == model_row(m.model, columns)[i],
{
}

/// The number of matches of report items.
pub open spec fn total_matches(items: Seq<ModelMatchReportItem>) -> int
    decreases items.len(),
{
    if items.len() == 0 {
        0
    } else {
        total_matches(items.drop_last()) + items.last().matches@.len()
    }
}

/// A duplicates table has one row per match of each item, the rows of an
/// item following those of the items before it.
pub proof fn lemma_report_rows_one_per_match(
    items: Seq<ModelMatchReportItem>,
    scores: Seq<Seq<Seq<char>>>,
    columns: Seq<Seq<char>>,
)
    requires
        scores_fit(items, scores),
    ensures
        report_rows(items, scores, columns).len() == total_matches(items),
        items.len() > 0 ==> report_rows(items, scores, columns) == report_rows(
            items.drop_last(),
            scores.drop_last(),
            columns,
        ) + item_rows(items.last(), scores.last(), columns),
    decreases items.len(),
{
    if items.len() > 0 {
        assert(scores_fit(items.drop_last(), scores.drop_last())) by {
            assert forall|i: int| 0 <= i < items.len() - 1 implies (#[trigger] scores.drop_last()[i]).len()
                == items.drop_last()[i].matches@.len() by {
                assert(scores.drop_last()[i] == scores[i]);
                assert(items.drop_last()[i] == items[i]);
            }
        }
        lemma_report_rows_one_per_match(items.drop_last(), scores.drop_last(), columns);
    }
}

pub proof fn lemma_csv_lines_append(a: Seq<Seq<Seq<char>>>, b: Seq<Seq<Seq<char>>>)
    ensures
        csv_lines(a + b) == csv_lines(a) + csv_lines(b),
    decreases b.len(),
{
    if b.len() == 0 {
        assert(a + b =~= a);
    } else {
        lemma_csv_lines_append(a, b.drop_last());
        assert((a + b).drop_last() =~= a + b.drop_last());
    }
}

impl SimpleDuplicatesMatchReport {
    /// The sorted names of the metadata properties of all matched models.
    pub fn property_columns(&self) -> (columns: Vec<String>)
        ensures
            columns.deep_view() == sorted_names(models_meta_names(report_models(self.inner.values()))),
    {
        let mut columns: Vec<String> = Vec::new();
        let entries = self.inner.entries();
        let ghost items = self.inner.values();
        proof {
            self.inner.lemma_domain();
            assert(Seq::<Seq<char>>::empty().to_set() =~= Set::empty());
            assert(items.take(0) =~= Seq::<ModelMatchReportItem>::empty());
        }
        let mut i: usize = 0;
        while i < entries.len()
            invariant
                i <= entries@.len(),
                entries@.len() == items.len(),
                forall|j: int| 0 <= j < entries@.len() ==> #[trigger] entries@[j].1 == items[j],
                strictly_sorted(columns.deep_view()),
                columns.deep_view().to_set() == models_meta_names(report_models(items.take(i as int))),
            decreases entries@.len() - i,
        {
            let ghost before = columns.deep_view().to_set();
            match_columns(&entries[i].1.matches, &mut columns);
            proof {
                assert(items.take(i + 1).drop_last() =~= items.take(i as int));
                assert(items.take(i + 1).last() == entries@[i as int].1);
                lemma_models_meta_names_append(
                    report_models(items.take(i as int)),
                    match_models(entries@[i as int].1.matches.deep_view()),
                );
            }
            i += 1;
        }
        proof {
            assert(items.take(items.len() as int) =~= items);
            lemma_sorted_names_is(columns.deep_view());
        }
        columns
    }

    /// The report as CSV: an optional header, then per item and per match
    /// the source model's name, the matched model's name, the score text
    /// (`scores[i][j]` for match `j` of entry `i`), both UUIDs, both folder
    /// names, the comparison link, and one cell per metadata property name
    /// of any matched model, sorted. Entries come in entry order.
    pub fn to_csv_with_scores(&self, pretty: bool, scores: &Vec<Vec<String>>) -> (result: Result<
        String,
        ParsingError,
    >)
        requires
            scores_fit(self.inner.values(), scores.deep_view()),
        ensures
            result matches Ok(text) && text@ == ({
                let columns = sorted_names(models_meta_names(report_models(self.inner.values())));
                header_text(pretty, report_header(columns)) + csv_lines(
                    report_rows(self.inner.values(), scores.deep_view(), columns),
                )
            }),
    {
        let columns = self.property_columns();
        let mut header: Vec<String> = texts3("MODEL_NAME", "MATCHING_MODEL_NAME", "MATCH");
        let h2 = texts3("SOURCE_UUID", "MATCHING_UUID", "SOURCE_FOLDER_NAME");
        let h3 = texts2("MATCHING_FOLDER_NAME", "COMPARISON_URL");
        append_copies(&mut header, &h2);
        append_copies(&mut header, &h3);
        append_copies(&mut header, &columns);
        assert(header.deep_view() =~= report_header(columns.deep_view()));
        let mut rows = start_table(pretty, header);
        let ghost head = csv_lines(rows.deep_view());
        let ghost items = self.inner.values();
        let ghost cols = columns.deep_view();
        let ghost sc = scores.deep_view();
        let entries = self.inner.entries();
        proof {
            self.inner.lemma_domain();
            assert(items.take(0) =~= Seq::<ModelMatchReportItem>::empty());
            assert(sc.take(0) =~= Seq::<Seq<Seq<char>>>::empty());
        }
        let mut i: usize = 0;
        while i < entries.len()
            invariant
                i <= entries@.len(),
                entries@.len() == items.len(),
                forall|j: int| 0 <= j < entries@.len() ==> #[trigger] entries@[j].1 == items[j],
                sc == scores.deep_view(),
                cols == columns.deep_view(),
                scores_fit(items, sc),
                csv_lines(rows.deep_view()) == head + csv_lines(
                    report_rows(items.take(i as int), sc.take(i as int), cols),
                ),
            decreases entries@.len() - i,
        {
            let item = &entries[i].1;
            let ghost done = csv_lines(rows.deep_view());
            let ghost target = item_rows(*item, sc[i as int], cols);
            assert(item == items[i as int]);
            let mut j: usize = 0;
            while j < item.matches.len()
                invariant
                    j <= item.matches@.len(),
                    i < scores@.len(),
                    sc == scores.deep_view(),
                    scores_fit(items, sc),
                    item == items[i as int],
                    cols == columns.deep_view(),
                    target == item_rows(*item, sc[i as int], cols),
                    csv_lines(rows.deep_view()) == done + csv_lines(target.take(j as int)),
                decreases item.matches@.len() - j,
            {
                let m = &item.matches[j];
                let mut row: Vec<String> = Vec::new();
                row.push(item.name.clone());
                row.push(m.model.name.clone());
                assert(scores@[i as int].deep_view() == sc[i as int]);
                row.push(scores[i][j].clone());
                row.push(item.uuid.clone());
                row.push(uuid_to_string(m.model.uuid));
                row.push(item.folder_name.clone());
                row.push(
                    match &m.model.folder_name {
                        Some(f) => f.clone(),
                        None => String::new(),
                    },
                );
                row.push(
                    match &m.comparison_url {
                        Some(u) => u.clone(),
                        None => String::new(),
                    },
                );
                let cells = meta_cells_of(&m.model.metadata, &columns);
                append_copies(&mut row, &cells);
                assert(row.deep_view() =~= target[j as int]);
                push_row(&mut rows, row);
                proof {
                    assert(target.take(j + 1).drop_last() =~= target.take(j as int));
                }
                j += 1;
            }
            proof {
                assert(target.take(item.matches@.len() as int) =~= target);
                let it = items.take(i + 1);
                let st = sc.take(i + 1);
                assert(it.drop_last() =~= items.take(i as int));
                assert(st.drop_last() =~= sc.take(i as int));
                assert(it.last() == items[i as int]);
                assert(st.last() == sc[i as int]);
                lemma_csv_lines_append(report_rows(items.take(i as int), sc.take(i as int), cols), target);
            }
            i += 1;
        }
        proof {
            assert(items.take(items.len() as int) =~= items);
            assert(sc.take(items.len() as int) =~= sc);
        }
        Ok(csv_table(&rows))
    }
}

pub proof fn lemma_models_meta_names_append(a: Seq<ModelView>, b: Seq<ModelView>)
    ensures
        models_meta_names(a + b) == models_meta_names(a).union(models_meta_names(b)),
    decreases b.len(),
{
    if b.len() == 0 {
        assert(a + b =~= a);
        assert(models_meta_names(a).union(Set::empty()) =~= models_meta_names(a));
    } else {
        lemma_models_meta_names_append(a, b.drop_last());
        assert((a + b).drop_last() =~= a + b.drop_last());
        assert(models_meta_names(a + b) =~= models_meta_names(a).union(models_meta_names(b)));
    }
}

/// The row of a classifier prediction.
pub open spec fn prediction_row(m: crate::model::GeoMatch, score: Seq<char>) -> Seq<Seq<char>> {
    seq![
        uuid_text(m.model.uuid as nat),
        m.model.name@,
        score,
        bool_text(m.model.is_assembly),
        decimal_text(m.model.folder_id as nat),
    ]
}

impl ListOfGeoClassifierPredictions {
    /// The predictions as CSV: an optional
    /// `ID,NAME,CONFIDENCE,IS_ASSEMBLY,FOLDER` header, then one row per
    /// prediction with its confidence text from `scores`.
    pub fn to_csv_with_scores(&self, pretty: bool, scores: &Vec<String>) -> (result: Result<
        String,
        ParsingError,
    >)
        requires
            scores@.len() == self.matches@.len(),
        ensures
            result matches Ok(text) && text@ == header_text(
                pretty,
                seq!["ID"@, "NAME"@, "CONFIDENCE"@, "IS_ASSEMBLY"@, "FOLDER"@],
            ) + csv_lines(
                Seq::new(
                    self.matches@.len(),
                    |i: int| prediction_row(self.matches@[i], scores@[i]@),
                ),
            ),
    {
        let mut header = texts3("ID", "NAME", "CONFIDENCE");
        let rest = texts2("IS_ASSEMBLY", "FOLDER");
        append_copies(&mut header, &rest);
        assert(header.deep_view() =~= seq!["ID"@, "NAME"@, "CONFIDENCE"@, "IS_ASSEMBLY"@, "FOLDER"@]);
        let mut rows = start_table(pretty, header);
        let ghost head = csv_lines(rows.deep_view());
        let ghost all = Seq::new(
            self.matches@.len(),
            |i: int| prediction_row(self.matches@[i], scores@[i]@),
        );
        let mut i: usize = 0;
        while i < self.matches.len()
            invariant
                i <= self.matches@.len(),
                scores@.len() == self.matches@.len(),
                all == Seq::new(
                    self.matches@.len(),
                    |i: int| prediction_row(self.matches@[i], scores@[i]@),
                ),
                csv_lines(rows.deep_view()) == head + csv_lines(all.take(i as int)),
            decreases self.matches@.len() - i,
        {
            let m = &self.matches[i];
            let mut row: Vec<String> = Vec::new();
            row.push(uuid_to_string(m.model.uuid));
            row.push(m.model.name.clone());
            row.push(scores[i].clone());
            row.push(bool_to_string(m.model.is_assembly));
            row.push(u64_to_string(m.model.folder_id as u64));
            assert(row.deep_view() =~= all[i as int]);
            push_row(&mut rows, row);
            proof {
                assert(all.take(i + 1).drop_last() =~= all.take(i as int));
            }
            i += 1;
        }
        proof {
            assert(all.take(self.matches@.len() as int) =~= all);
        }
        Ok(csv_table(&rows))
    }
}

/// The row of an inferred property value.
pub open spec fn inferred_row(item: crate::model::MatchedMetadataItem, score: Seq<char>) -> Seq<
    Seq<char>,
> {
    seq![uuid_text(item.uuid as nat), item.name@, item.value@, score]
}

impl ListOfMatchedMetadataItems {
    /// The inferred values as CSV: an optional
    /// `MODEL_UUID,NAME,VALUE,MATCH_SCORE` header, then one row per item
    /// with its score text from `scores`. This is the format the metadata
    /// upload reads.
    pub fn to_csv_with_scores(&self, pretty: bool, scores: &Vec<String>) -> (result: Result<
        String,
        ParsingError,
    >)
        requires
            scores@.len() == self.items@.len(),
        ensures
            result matches Ok(text) && text@ == header_text(
                pretty,
                seq!["MODEL_UUID"@, "NAME"@, "VALUE"@, "MATCH_SCORE"@],
            ) + csv_lines(
                Seq::new(self.items@.len(), |i: int| inferred_row(self.items@[i], scores@[i]@)),
            ),
    {
        let mut header = texts2("MODEL_UUID", "NAME");
        let rest = texts2("VALUE", "MATCH_SCORE");
        append_copies(&mut header, &rest);
        assert(header.deep_view() =~= seq!["MODEL_UUID"@, "NAME"@, "VALUE"@, "MATCH_SCORE"@]);
        let mut rows = start_table(pretty, header);
        let ghost head = csv_lines(rows.deep_view());
        let ghost all = Seq::new(
            self.items@.len(),
            |i: int| inferred_row(self.items@[i], scores@[i]@),
        );
        let mut i: usize = 0;
        while i < self.items.len()
            invariant
                i <= self.items@.len(),
                scores@.len() == self.items@.len(),
                all == Seq::new(
                    self.items@.len(),
                    |i: int| inferred_row(self.items@[i], scores@[i]@),
                ),
                csv_lines(rows.deep_view()) == head + csv_lines(all.take(i as int)),
            decreases self.items@.len() - i,
        {
            let item = &self.items[i];
            let mut row: Vec<String> = Vec::new();
            row.push(uuid_to_string(item.uuid));
            row.push(item.name.clone());
            row.push(item.value.clone());
            row.push(scores[i].clone());
            assert(row.deep_view() =~= all[i as int]);
            push_row(&mut rows, row);
            proof {
                assert(all.take(i + 1).drop_last() =~= all.take(i as int));
            }
            i += 1;
        }
        proof {
            assert(all.take(self.items@.len() as int) =~= all);
        }
        Ok(csv_table(&rows))
    }
}

} // verus!
