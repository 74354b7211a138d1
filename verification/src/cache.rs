//! Models already read from the service, kept by UUID so that each is read
//! once.

use vstd::prelude::*;
use std::collections::HashMap;
use crate::model::{Model, ModelMetadata, ModelView};
use crate::service::with_metadata;

verus! {

broadcast use vstd::std_specs::hash::group_hash_axioms;

/// Models already read, by UUID.
pub struct ModelCache {
    models: HashMap<u128, Model>,
}

impl ModelCache {
    /// The models held, as plain values.
    pub closed spec fn held(&self) -> Map<u128, ModelView> {
        self.models@.map_values(|m: Model| m@)
    }

    /// An empty cache.
    pub fn new() -> (c: ModelCache)
        ensures
            c.held() == Map::<u128, ModelView>::empty(),
    {
        let c = ModelCache { models: HashMap::new() };
        assert(c.held() =~= Map::<u128, ModelView>::empty());
        c
    }

    /// A copy of the model held for a UUID, if any.
    pub fn get(&self, uuid: u128) -> (m: Option<Model>)
        ensures
            match m {
                Some(model) => self.held().contains_key(uuid) && model@ == self.held()[uuid],
                None => !self.held().contains_key(uuid),
            },
    {
        match self.models.get(&uuid) {
            Some(model) => Some(model.duplicate()),
            None => None,
        }
    }

    /// The model to answer with before asking the service: a copy of the
    /// one held for the UUID, when the cache is to be used and holds one.
    pub fn cached(&self, uuid: u128, use_cache: bool) -> (m: Option<Model>)
        ensures
            match m {
                Some(model) => use_cache && self.held().contains_key(uuid) && model@ == self.held()[uuid],
                None => !use_cache || !self.held().contains_key(uuid),
            },
    {
        if use_cache {
            self.get(uuid)
        } else {
            None
        }
    }

    /// Takes a model just read from the service and, when its metadata was
    /// asked for and read, that metadata (`Some(None)`: the model has
    /// none). The model gets the metadata read, is held under its own UUID,
    /// and is given back.
    pub fn remember(&mut self, model: Model, metadata: Option<Option<ModelMetadata>>) -> (r: Model)
        ensures
            r@ == match metadata {
                Some(read) => ModelView {
                    metadata: match read {
                        Some(meta) => Some(meta.properties.deep_view()),
                        None => None,
                    },
                    ..model@
                },
                None => model@,
            },
            final(self).held() == old(self).held().insert(r.uuid, r@),
    {
        let model = match metadata {
            Some(read) => with_metadata(model, read),
            None => model,
        };
        self.insert(model.duplicate());
        model
    }

    /// Holds a model under its UUID, replacing the one held before.
    pub fn insert(&mut self, model: Model)
        ensures
            final(self).held() == old(self).held().insert(model.uuid, model@),
    {
        let ghost v = model@;
        let uuid = model.uuid;
        self.models.insert(uuid, model);
        assert(self.held() =~= old(self).held().insert(uuid, v));
    }
}

} // verus!
