//! The page-by-page decisions of matching a model: which matches of a page
//! are kept, the metadata each is shown with, which models receive the
//! classification tag, and which page to read next.

use vstd::prelude::*;
use crate::client::{next_page, PageData};
use crate::model::{
    duplicate_items, duplicate_text, ListOfModelMatches, MetadataItemView, ModelMatch,
    ModelMatchView, ModelMetadata, ModelMetadataItem, ModelView, Property,
};
use crate::service::{
    classification_item, combine_metadata, combined_items, metadata_items, with_metadata,
};

verus! {

/// A match as shown: its model carries the given metadata.
pub open spec fn shown_match(m: ModelMatchView, meta: Option<Seq<MetadataItemView>>) -> ModelMatchView {
    ModelMatchView { model: ModelView { metadata: meta, ..m.model }, ..m }
}

/// The matches of a page as kept: each shown with the combination of its
/// model's metadata and the reference metadata when metadata is wanted, and
/// with none otherwise.
pub open spec fn kept_matches(
    ms: Seq<ModelMatchView>,
    metas: Seq<Option<Seq<MetadataItemView>>>,
    with_meta: bool,
    reference: Option<Seq<MetadataItemView>>,
) -> Seq<ModelMatchView> {
    Seq::new(
        ms.len(),
        |i: int|
            shown_match(
                ms[i],
                if with_meta {
                    combined_items(metas[i], reference)
                } else {
                    None
                },
            ),
    )
}

/// Each match of a page is kept once, in order, as it was found (same
/// model but for its metadata, same percentage and comparison link); it is
/// shown with metadata only when metadata is wanted, and then with the
/// combination of its model's metadata and the reference metadata.
pub proof fn lemma_kept_matches_keep_each_match(
    ms: Seq<ModelMatchView>,
    metas: Seq<Option<Seq<MetadataItemView>>>,
    with_meta: bool,
    reference: Option<Seq<MetadataItemView>>,
)
    ensures
        ({
            let kept = kept_matches(ms, metas, with_meta, reference);
            &&& kept.len() == ms.len()
            &&& forall|i: int|
                0 <= i < ms.len() ==> {
                    let k = #[trigger] kept[i];
                    &&& k.percentage == ms[i].percentage
                    &&& k.comparison_url == ms[i].comparison_url
                    &&& k.model == ModelView { metadata: k.model.metadata, ..ms[i].model }
                    &&& (!with_meta ==> k.model.metadata is None)
                    &&& (with_meta ==> k.model.metadata == combined_items(metas[i], reference))
                }
        }),
{
}

/// The classification to set on every matching model: the property, its
/// name and the value.
pub struct ClassificationTag {
    pub property: Property,
    pub name: String,
    pub value: String,
}

/// Setting the classification property of one matching model.
pub struct MatchTag {
    pub model_uuid: u128,
    pub property_id: u64,
    pub item: ModelMetadataItem,
}

/// What to do after a page: read the given page, or stop.
#[derive(Debug, Clone, Copy, PartialEq, Eq)]
pub enum MatchStep {
    FetchPage(u32),
    Done,
}

/// The page that follows, as a step.
pub open spec fn step_after(page: PageData) -> MatchStep {
    if page.current_page < page.last_page {
        MatchStep::FetchPage((page.current_page + 1) as u32)
    } else {
        MatchStep::Done
    }
}

/// After a page that is not the last, the step reads the page right after
/// it; after the last page, it stops.
pub proof fn lemma_step_after_reads_next_page(page: PageData)
    ensures
        match step_after(page) {
            MatchStep::FetchPage(p) => page.current_page < page.last_page && p == page.current_page + 1,
            MatchStep::Done => page.current_page >= page.last_page,
        },
{
}

/// Following the steps from the first page reads the pages one by one,
/// none skipped: when each page read is the one the previous step asked
/// for, the `i`-th page read is page `i + 1`, and every page but the last
/// read asks for another.
pub proof fn lemma_steps_read_pages_in_turn(pages: Seq<PageData>)
    requires
        pages.len() > 0,
        pages[0].current_page == 1,
        forall|i: int| 0 <= i < pages.len() - 1 ==> step_after(#[trigger] pages[i]) == MatchStep::FetchPage(pages[i + 1].current_page),
    ensures
        forall|i: int| 0 <= i < pages.len() ==> (#[trigger] pages[i]).current_page == i + 1,
        forall|i: int| 0 <= i < pages.len() - 1 ==> (#[trigger] pages[i]).current_page < pages[i].last_page,
    decreases pages.len(),
{
    if pages.len() > 1 {
        let init = pages.drop_last();
        assert forall|i: int| 0 <= i < init.len() - 1 implies step_after(#[trigger] init[i]) == MatchStep::FetchPage(init[i + 1].current_page) by {
            assert(init[i] == pages[i] && init[i + 1] == pages[i + 1]);
        }
        lemma_steps_read_pages_in_turn(init);
        let n = pages.len() - 1;
        assert(init[n - 1] == pages[n - 1]);
        lemma_step_after_reads_next_page(pages[n - 1]);
        assert forall|i: int| 0 <= i < pages.len() implies (#[trigger] pages[i]).current_page == i + 1 by {
            if i < n {
                assert(init[i] == pages[i]);
            }
        }
        assert forall|i: int| 0 <= i < pages.len() - 1 implies (#[trigger] pages[i]).current_page < pages[i].last_page by {
            assert(init[i] == pages[i]);
            lemma_step_after_reads_next_page(pages[i]);
        }
    }
}

/// The matches of a model gathered page by page.
pub struct MatchCollector {
    pub matches: Vec<ModelMatch>,
    pub with_meta: bool,
    pub reference: Option<ModelMetadata>,
    pub classification: Option<ClassificationTag>,
}

/// A copy of optional metadata.
fn copy_metadata(meta: &Option<ModelMetadata>) -> (copy: Option<ModelMetadata>)
    ensures
        metadata_items(copy) == metadata_items(*meta),
{
    match meta {
        Some(m) => Some(ModelMetadata::new(duplicate_items(&m.properties))),
        None => None,
    }
}

impl MatchCollector {
    /// Starts with no match gathered. `reference` is the reference model's
    /// metadata (when it is to be shown), `classification` the tag to set on
    /// each matching model, if any.
    pub fn new(
        with_meta: bool,
        reference: Option<ModelMetadata>,
        classification: Option<ClassificationTag>,
    ) -> (c: MatchCollector)
        ensures
            c.matches@.len() == 0,
            c.with_meta == with_meta,
            c.reference == reference,
            c.classification == classification,
    {
        MatchCollector { matches: Vec::new(), with_meta, reference, classification }
    }

    /// Takes one page of matches and, when metadata is wanted, the metadata
    /// of each match's model (`metadata[i]` for `matches[i]`). A page that
    /// reports matches keeps them all, each shown with the combination of
    /// its model's metadata and the reference metadata; each gets the
    /// classification tag when one is given. Gives the step that follows:
    /// the next page while there is one, else done.
    pub fn on_match_page(
        &mut self,
        page: &PageData,
        matches: Vec<ModelMatch>,
        metadata: Vec<Option<ModelMetadata>>,
    ) -> (r: (MatchStep, Vec<MatchTag>))
        requires
            metadata@.len() == matches@.len(),
        ensures
            final(self).with_meta == old(self).with_meta,
            final(self).reference == old(self).reference,
            final(self).classification == old(self).classification,
            final(self).matches.deep_view() == old(self).matches.deep_view() + if page.total > 0 {
                kept_matches(
                    matches.deep_view(),
                    metadata@.map_values(|m: Option<ModelMetadata>| metadata_items(m)),
                    old(self).with_meta,
                    metadata_items(old(self).reference),
                )
            } else {
                Seq::<ModelMatchView>::empty()
            },
            r.0 == step_after(*page),
            r.1@.len() == if page.total > 0 && old(self).classification is Some {
                matches@.len()
            } else {
                0
            },
            forall|i: int|
                0 <= i < r.1@.len() ==> {
                    let c = old(self).classification->0;
                    &&& (#[trigger] r.1@[i]).model_uuid == matches@[i].model.uuid
                    &&& r.1@[i].property_id == c.property.id
                    &&& r.1@[i].item@ == (MetadataItemView {
                        key_id: c.property.id,
                        name: c.name@,
                        value: c.value@,
                    })
                },
    {
        let ghost before = self.matches.deep_view();
        let ghost metas = metadata@.map_values(|m: Option<ModelMetadata>| metadata_items(m));
        let ghost kept = kept_matches(
            matches.deep_view(),
            metas,
            self.with_meta,
            metadata_items(self.reference),
        );
        let mut tags: Vec<MatchTag> = Vec::new();
        if page.total > 0 {
            let mut i: usize = 0;
            while i < matches.len()
                invariant
                    i <= matches@.len(),
                    metadata@.len() == matches@.len(),
                    metas == metadata@.map_values(|m: Option<ModelMetadata>| metadata_items(m)),
                    kept == kept_matches(
                        matches.deep_view(),
                        metas,
                        self.with_meta,
                        metadata_items(self.reference),
                    ),
                    self.with_meta == old(self).with_meta,
                    self.reference == old(self).reference,
                    self.classification == old(self).classification,
                    self.matches.deep_view() == before + kept.take(i as int),
                    tags@.len() == if self.classification is Some {
                        i as int
                    } else {
                        0
                    },
                    forall|k: int|
                        0 <= k < tags@.len() ==> {
                            let c = self.classification->0;
                            &&& (#[trigger] tags@[k]).model_uuid == matches@[k].model.uuid
                            &&& tags@[k].property_id == c.property.id
                            &&& tags@[k].item@ == (MetadataItemView {
                                key_id: c.property.id,
                                name: c.name@,
                                value: c.value@,
                            })
                        },
                decreases matches@.len() - i,
            {
                let m = &matches[i];
                let meta = if self.with_meta {
                    combine_metadata(copy_metadata(&metadata[i]), &self.reference)
                } else {
                    None
                };
                let model = with_metadata(m.model.duplicate(), meta);
                let shown = ModelMatch::new(model, m.percentage, duplicate_text(&m.comparison_url));
                proof {
                    assert(metas[i as int] == metadata_items(metadata@[i as int]));
                    assert(shown@ == kept[i as int]);
                }
                let ghost old_matches = self.matches.deep_view();
                self.matches.push(shown);
                proof {
                    assert(self.matches.deep_view() =~= old_matches.push(shown@));
                    assert(kept.take(i + 1) =~= kept.take(i as int).push(kept[i as int]));
                }
                match &self.classification {
                    Some(c) => {
                        let item = classification_item(&c.property, c.name.as_str(), c.value.as_str());
                        tags.push(MatchTag { model_uuid: m.model.uuid, property_id: c.property.id, item });
                    },
                    None => {},
                }
                i += 1;
            }
            assert(kept.take(matches@.len() as int) =~= kept);
        } else {
            assert(before + Seq::<ModelMatchView>::empty() =~= before);
        }
        let step = match next_page(page) {
            Some(n) => MatchStep::FetchPage(n),
            None => MatchStep::Done,
        };
        (step, tags)
    }

    /// The matches gathered.
    pub fn finish(self) -> (list: ListOfModelMatches)
        ensures
            list.inner.deep_view() == self.matches.deep_view(),
    {
        ListOfModelMatches::new(Box::new(self.matches))
    }
}

} // verus!
