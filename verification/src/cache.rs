use vstd::prelude::*;
use crate::model::Model;

verus! {

/// A loaded model in the cache, under the model that it was loaded for.
#[derive(Debug)]
pub struct CacheEntry<H> {
    pub model: Model,
    pub handle: H,
}

/// The loaded models of a process, at most one for each model of the catalog.
/// A model is put in when it is first used and stays for good.
#[derive(Debug)]
pub struct ModelCache<H> {
    entries: Vec<CacheEntry<H>>,
}

impl<H> ModelCache<H> {
    #[verifier::type_invariant]
    spec fn well_formed(self) -> bool {
        forall|i: int, j: int|
            0 <= i < j < self.entries@.len() ==> self.entries@[i].model != self.entries@[j].model
    }

    /// The position of the entry of a model, if the cache has one.
    pub closed spec fn position(&self, model: Model) -> Option<int> {
        if exists|i: int| 0 <= i < self.entries@.len() && self.entries@[i].model == model {
            Some(choose|i: int| 0 <= i < self.entries@.len() && self.entries@[i].model == model)
        } else {
            None
        }
    }

    /// Whether a model is loaded.
    pub open spec fn has(&self, model: Model) -> bool {
        self.position(model) is Some
    }

    /// The loaded model for a model that is loaded.
    pub closed spec fn handle(&self, model: Model) -> H
        recommends
            self.has(model),
    {
        self.entries@[self.position(model)->0].handle
    }

    /// The number of loaded models.
    pub closed spec fn spec_len(&self) -> nat {
        self.entries@.len()
    }

    /// An empty cache.
    pub fn new() -> (cache: ModelCache<H>)
        ensures
            forall|model: Model| !cache.has(model),
            cache.spec_len() == 0,
    {
        ModelCache { entries: Vec::new() }
    }

    /// The number of loaded models.
    pub fn len(&self) -> (n: usize)
        ensures
            n == self.spec_len(),
    {
        self.entries.len()
    }

    /// Where the entry of a model stands, if the cache has one.
    fn find(&self, model: Model) -> (r: Option<usize>)
        ensures
            match r {
                Some(i) => i < self.entries@.len() && self.entries@[i as int].model == model
                    && self.position(model) == Some(i as int),
                None => self.position(model) is None,
            },
    {
        proof {
            use_type_invariant(self);
        }
        let mut i: usize = 0;
        while i < self.entries.len()
            invariant
                0 <= i <= self.entries.len(),
                forall|k: int| 0 <= k < i ==> self.entries@[k].model != model,
                forall|a: int, b: int|
                    0 <= a < b < self.entries@.len() ==> self.entries@[a].model
                        != self.entries@[b].model,
            decreases self.entries.len() - i,
        {
            if self.entries[i].model == model {
                proof {
                    let c = choose|c: int|
                        0 <= c < self.entries@.len() && self.entries@[c].model == model;
                    if c < i {
                        assert(self.entries@[c].model != self.entries@[i as int].model);
                    } else if c > i {
                        assert(self.entries@[i as int].model != self.entries@[c].model);
                    }
                }
                return Some(i);
            }
            i = i + 1;
        }
        None
    }

    /// The loaded model for a model, if it is loaded.
    pub fn get(&self, model: Model) -> (r: Option<&H>)
        ensures
            r is Some <==> self.has(model),
            r is Some ==> *r->0 == self.handle(model),
    {
        match self.find(model) {
            Some(i) => Some(&self.entries[i].handle),
            None => None,
        }
    }

    /// Puts a loaded model in, unless the model is loaded already: then the
    /// cache stays as it is and the answer is `false`. What was loaded before
    /// stays in either case.
    pub fn insert(&mut self, model: Model, handle: H) -> (added: bool)
        ensures
            added == !old(self).has(model),
            final(self).has(model),
            added ==> final(self).handle(model) == handle,
            added ==> final(self).spec_len() == old(self).spec_len() + 1,
            !added ==> final(self).spec_len() == old(self).spec_len(),
            forall|other: Model|
                old(self).has(other) ==> final(self).has(other) && final(self).handle(other) == old(
                    self,
                ).handle(other),
            forall|other: Model| other != model ==> (final(self).has(other) <==> old(self).has(other)),
    {
        proof {
            use_type_invariant(&*self);
        }
        match self.find(model) {
            Some(_) => false,
            None => {
                let ghost before = self.entries@;
                let mut taken = ModelCache { entries: Vec::new() };
                std::mem::swap(self, &mut taken);
                let ModelCache { entries } = taken;
                let mut entries = entries;
                entries.push(CacheEntry { model, handle });
                proof {
                    assert forall|i: int, j: int| 0 <= i < j < entries@.len() implies entries@[i].model
                        != entries@[j].model by {
                        if j == before.len() {
                            assert(before[i].model != model);
                        }
                    }
                }
                *self = ModelCache { entries };
                proof {
                    let after = self.entries@;
                    assert(after[before.len() as int].model == model);
                    assert forall|other: Model| old(self).has(other) implies self.has(other)
                        && self.handle(other) == old(self).handle(other) by {
                        let i = old(self).position(other)->0;
                        assert(after[i].model == other);
                        let j = self.position(other)->0;
                        assert(after[j].model == other);
                        assert(i == j);
                    }
                    assert forall|other: Model| other != model implies (self.has(other) <==> old(
                        self,
                    ).has(other)) by {
                        if self.has(other) {
                            let j = self.position(other)->0;
                            assert(before[j].model == other);
                        }
                    }
                    let k = self.position(model)->0;
                    assert(after[k].model == model);
                    assert(k == before.len());
                }
                true
            },
        }
    }
}

} // verus!
