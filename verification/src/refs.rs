//! Cached component references: quick repeated access to one component
//! value of one entity. The cached storage location is revalidated by its
//! generation stamp before every dereference and re-resolved when stale,
//! so a read always yields the component's current value — the cache is
//! an invisible optimization, never a source of stale data.

use vstd::prelude::*;
use crate::component::ComponentDesc;
use crate::entity::Entity;
use crate::entity_view::EntityView;
use crate::ids::encode;
use crate::ids::spec_encode;
use crate::world::Record;
use crate::world::World;

verus! {

/// A reference to the component `comp_id` of `entity`, with a cached
/// storage location.
pub struct CachedRef {
    pub entity: u64,
    pub comp_id: u64,
    pub tab: usize,
    pub row: usize,
    pub gen: u64,
    pub col: usize,
}

impl CachedRef {
    /// Build a reference, resolving the storage location once.
    pub fn new<V: Copy>(w: &World<V>, entity: u64, comp_id: u64) -> (r: CachedRef)
        requires
            w.wf(),
        ensures
            r.entity == entity,
            r.comp_id == comp_id,
    {
        let mut cr = CachedRef { entity, comp_id, tab: 0, row: 0, gen: 0, col: 0 };
        cr.revalidate(w);
        cr
    }

    fn revalidate<V: Copy>(&mut self, w: &World<V>)
        requires
            w.wf(),
        ensures
            final(self).entity == old(self).entity,
            final(self).comp_id == old(self).comp_id,
    {
        match w.locate(self.entity) {
            None => {},
            Some(rec) => {
                match w.column_index(&rec, self.comp_id) {
                    None => {},
                    Some(c) => {
                        self.tab = rec.tab;
                        self.row = rec.row;
                        self.gen = rec.gen;
                        self.col = c;
                    },
                }
            },
        }
    }

    /// Read the current value of the referenced component: through the
    /// cached location when it is still current, else after re-resolving
    /// it. Absence (or an unconstructed cell) reads as `None`.
    pub fn try_get<V: Copy>(&mut self, w: &World<V>) -> (r: Option<V>)
        requires
            w.wf(),
        ensures
            r == w.value(old(self).entity, old(self).comp_id),
            final(self).entity == old(self).entity,
            final(self).comp_id == old(self).comp_id,
    {
        let rec = Record { tab: self.tab, row: self.row, gen: self.gen };
        match w.column_read_checked(&rec, self.col, self.entity, self.comp_id) {
            Some(cell) => cell,
            None => {
                self.revalidate(w);
                w.get_value(self.entity, self.comp_id)
            },
        }
    }
}

impl EntityView {
    /// A cached reference to a component of this entity.
    pub fn get_ref<V: Copy>(&self, w: &World<V>, comp: &ComponentDesc<V>) -> (r: CachedRef)
        requires
            w.wf(),
        ensures
            r.entity == self.id,
            r.comp_id == comp.id,
    {
        CachedRef::new(w, self.id, comp.id)
    }

    /// A cached reference to the pair (First, second) of this entity.
    pub fn get_ref_first<V: Copy>(&self, w: &World<V>, first: &ComponentDesc<V>, second: Entity) -> (r:
        CachedRef)
        requires
            w.wf(),
        ensures
            r.entity == self.id,
            r.comp_id == spec_encode(first.id, second.id),
    {
        let pair = encode(first.id, second.id);
        CachedRef::new(w, self.id, pair)
    }

    /// A cached reference to the pair (first, Second) of this entity.
    pub fn get_ref_second<V: Copy>(&self, w: &World<V>, second: &ComponentDesc<V>, first: Entity) -> (r:
        CachedRef)
        requires
            w.wf(),
        ensures
            r.entity == self.id,
            r.comp_id == spec_encode(first.id, second.id),
    {
        let pair = encode(first.id, second.id);
        CachedRef::new(w, self.id, pair)
    }
}

} // verus!
