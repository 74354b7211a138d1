//! Listings that the service hands out page by page: the models of a
//! listing, and the models that look like a given model.

use vstd::prelude::*;
use crate::client::{next_page, PageData};
use crate::model::{
    ListOfModels, ListOfVisualModelMatches, Model, ModelView, VisualMatchItem,
    VisuallyMatchedModel,
};
use crate::service::{trim_visual_matches, trimmed_visual};

verus! {

/// The page to read after this one, if there is one.
pub open spec fn page_after(page: PageData) -> Option<u32> {
    if page.current_page < page.last_page {
        Some((page.current_page + 1) as u32)
    } else {
        None
    }
}

/// After a page that is not the last, the page read next is the one right
/// after it; after the last page, none is.
pub proof fn lemma_page_after_is_next_page(page: PageData)
    ensures
        match page_after(page) {
            Some(p) => page.current_page < page.last_page && p == page.current_page + 1,
            None => page.current_page >= page.last_page,
        },
{
}

/// The models of a listing gathered page by page.
pub struct ModelListCollector {
    pub models: Vec<Model>,
}

impl ModelListCollector {
    /// Starts with no model gathered.
    pub fn new() -> (c: ModelListCollector)
        ensures
            c.models.deep_view() == Seq::<ModelView>::empty(),
    {
        let c = ModelListCollector { models: Vec::new() };
        assert(c.models.deep_view() =~= Seq::<ModelView>::empty());
        c
    }

    /// Takes one page of the listing: its models are kept when the page
    /// reports any, in page order. Gives the page to read next, if any.
    pub fn on_page(&mut self, page: &PageData, models: Vec<Model>) -> (next: Option<u32>)
        ensures
            final(self).models.deep_view() == old(self).models.deep_view() + if page.total > 0 {
                models.deep_view()
            } else {
                Seq::<ModelView>::empty()
            },
            next == page_after(*page),
    {
        let ghost before = self.models.deep_view();
        if page.total > 0 {
            let ghost added = models.deep_view();
            let mut models = models;
            self.models.append(&mut models);
            assert(self.models.deep_view() =~= before + added);
        } else {
            assert(before + Seq::<ModelView>::empty() =~= before);
        }
        next_page(page)
    }

    /// The models gathered.
    pub fn finish(self) -> (list: ListOfModels)
        ensures
            list.models.deep_view() == self.models.deep_view(),
    {
        ListOfModels::new(self.models)
    }
}

/// The models of visual match entries, in order.
pub open spec fn entry_models(entries: Seq<VisualMatchItem>) -> Seq<VisuallyMatchedModel> {
    entries.map_values(|e: VisualMatchItem| e.model)
}

/// A copy of a visually matched model.
fn copy_visual(m: &VisuallyMatchedModel) -> (c: VisuallyMatchedModel)
    ensures
        c == *m,
{
    VisuallyMatchedModel {
        file_name: m.file_name.clone(),
        file_type: m.file_type.clone(),
        folder_id: m.folder_id,
        uuid: m.uuid,
        is_assembly: m.is_assembly,
        name: m.name.clone(),
        units: m.units.clone(),
        state: m.state.clone(),
    }
}

/// The models that look like a reference model, gathered page by page.
pub struct VisualMatchCollector {
    pub models: Vec<VisuallyMatchedModel>,
}

impl VisualMatchCollector {
    /// Starts with no match gathered.
    pub fn new() -> (c: VisualMatchCollector)
        ensures
            c.models@ == Seq::<VisuallyMatchedModel>::empty(),
    {
        VisualMatchCollector { models: Vec::new() }
    }

    /// Takes one page of visual matches: the model of each entry is kept
    /// when the page reports any, in page order. Gives the page to read
    /// next, if any.
    pub fn on_page(&mut self, page: &PageData, entries: Vec<VisualMatchItem>) -> (next: Option<u32>)
        ensures
            final(self).models@ == old(self).models@ + if page.total > 0 {
                entry_models(entries@)
            } else {
                Seq::<VisuallyMatchedModel>::empty()
            },
            next == page_after(*page),
    {
        let ghost before = self.models@;
        if page.total > 0 {
            let mut i: usize = 0;
            while i < entries.len()
                invariant
                    i <= entries@.len(),
                    self.models@ == before + entry_models(entries@).take(i as int),
                decreases entries@.len() - i,
            {
                let m = copy_visual(&entries[i].model);
                self.models.push(m);
                assert(entry_models(entries@).take(i + 1) =~= entry_models(entries@).take(i as int).push(m));
                i += 1;
            }
            assert(entry_models(entries@).take(entries@.len() as int) =~= entry_models(entries@));
        } else {
            assert(before + Seq::<VisuallyMatchedModel>::empty() =~= before);
        }
        next_page(page)
    }

    /// The visual matches of the reference model with the given UUID: at
    /// most ten of those gathered, without the reference model itself.
    pub fn finish(self, uuid: u128) -> (list: ListOfVisualModelMatches)
        ensures
            (*list.models)@ == trimmed_visual(self.models@, uuid),
    {
        ListOfVisualModelMatches::new(Box::new(trim_visual_matches(self.models, uuid)))
    }
}

} // verus!
