//! Entities and the read-side queries on one entity: presence checks,
//! component reads, relationship targets, hierarchy depth, and iteration
//! over components, matching pairs, targets and children.

use vstd::prelude::*;
use crate::component::ComponentDesc;
use crate::component::EnumDesc;
use crate::component::EcsError;
use crate::ids::ANY;
use crate::ids::CHILD_OF;
use crate::ids::DISABLED;
use crate::ids::WILDCARD;
use crate::ids::encode;
use crate::ids::id_matches;
use crate::ids::spec_encode;
use crate::ids::spec_is_pair;
use crate::ids::spec_pair_first;
use crate::ids::spec_pair_second;
use crate::world::World;

verus! {

/// An entity id, distinct from the entity's data, which lives in a
/// `World`.
#[derive(PartialEq, Eq, Structural, Clone, Copy, Debug)]
pub struct Entity {
    pub id: u64,
}

/// The targets among `ids` of pairs whose relationship is `rel`, in
/// column order.
pub open spec fn spec_targets(ids: Seq<u64>, rel: u64) -> Seq<u64>
    decreases ids.len(),
{
    if ids.len() == 0 {
        Seq::empty()
    } else {
        let rest = spec_targets(ids.drop_last(), rel);
        let last = ids[ids.len() - 1];
        if spec_is_pair(last) && spec_pair_first(last) == rel {
            rest.push(spec_pair_second(last))
        } else {
            rest
        }
    }
}

/// The live entities among `es` holding `pair`, in row order.
pub open spec fn spec_holders<V: Copy>(w: World<V>, es: Seq<u64>, pair: u64) -> Seq<u64>
    decreases es.len(),
{
    if es.len() == 0 {
        Seq::empty()
    } else {
        let rest = spec_holders(w, es.drop_last(), pair);
        let last = es[es.len() - 1];
        if w.has(last, pair) {
            rest.push(last)
        } else {
            rest
        }
    }
}

/// The entity reached from `e` by following `rel` while holding `id`:
/// `e` itself when it has `id`, else the first target (depth-first, in
/// declared order) that reaches one, else 0. `fuel` bounds the walk.
pub open spec fn spec_search<V: Copy>(w: World<V>, e: u64, rel: u64, id: u64, fuel: nat) -> u64
    decreases fuel, 0int, 0int,
{
    if fuel == 0 {
        0
    } else if w.has(e, id) {
        e
    } else {
        spec_search_list(w, spec_targets(w.ent_ids(e), rel), rel, id, (fuel - 1) as nat)
    }
}

/// The first entity of `ts`, in order, from which the search succeeds.
pub open spec fn spec_search_list<V: Copy>(
    w: World<V>,
    ts: Seq<u64>,
    rel: u64,
    id: u64,
    fuel: nat,
) -> u64
    decreases fuel, 1int, ts.len(),
{
    if ts.len() == 0 {
        0
    } else if spec_search(w, ts[0], rel, id, fuel) != 0 {
        spec_search(w, ts[0], rel, id, fuel)
    } else {
        spec_search_list(w, ts.drop_first(), rel, id, fuel)
    }
}

/// The length of the chain of first targets of `rel` starting at `e`,
/// bounded by `fuel`.
pub open spec fn spec_depth<V: Copy>(w: World<V>, e: u64, rel: u64, fuel: nat) -> nat
    decreases fuel,
{
    if fuel == 0 {
        0
    } else {
        let ts = spec_targets(w.ent_ids(e), rel);
        if ts.len() == 0 {
            0
        } else {
            1 + spec_depth(w, ts[0], rel, (fuel - 1) as nat)
        }
    }
}

/// The `index`-th target of `rel` on `e`, or 0.
pub open spec fn spec_target_at<V: Copy>(w: World<V>, e: u64, rel: u64, index: int) -> u64 {
    let ts = spec_targets(w.ent_ids(e), rel);
    if 0 <= index < ts.len() {
        ts[index]
    } else {
        0
    }
}

/// All targets of `rel` on `e`, in column order.
pub fn targets_of<V: Copy>(w: &World<V>, e: u64, rel: u64) -> (r: Vec<u64>)
    requires
        w.wf(),
    ensures
        r@ == spec_targets(w.ent_ids(e), rel),
{
    let ids = w.ids_of(e);
    let mut out: Vec<u64> = Vec::new();
    let mut i: usize = 0;
    while i < ids.len()
        invariant
            i <= ids@.len(),
            ids@ == w.ent_ids(e),
            out@ == spec_targets(ids@.take(i as int), rel),
        decreases ids@.len() - i,
    {
        let id = ids[i];
        proof {
            assert(ids@.take(i + 1 as int) =~= ids@.take(i as int).push(ids@[i as int]));
            assert(ids@.take(i + 1 as int).drop_last() =~= ids@.take(i as int));
        }
        if crate::ids::is_pair(id) && crate::ids::pair_first(id) == rel {
            out.push(crate::ids::pair_second(id));
        }
        i += 1;
    }
    proof {
        assert(ids@.take(ids@.len() as int) =~= ids@);
    }
    out
}

impl Entity {
    /// Wrap an existing entity id.
    pub fn new_only_id(id: u64) -> (r: Entity)
        ensures
            r.id == id,
    {
        Entity { id }
    }

    /// The null entity handle (no id yet).
    pub fn new_only_world() -> (r: Entity)
        ensures
            r.id == 0,
    {
        Entity { id: 0 }
    }

    /// Whether the entity is a valid, live handle.
    pub fn get_is_valid<V: Copy>(&self, w: &World<V>) -> (r: bool)
        requires
            w.wf(),
        ensures
            r == (self.id != 0 && w.alive(self.id)),
    {
        self.id != 0 && w.is_alive(self.id)
    }

    /// Whether the entity is alive in the world.
    pub fn get_is_alive<V: Copy>(&self, w: &World<V>) -> (r: bool)
        requires
            w.wf(),
        ensures
            r == w.alive(self.id),
    {
        w.is_alive(self.id)
    }

    /// Whether the entity is enabled (does not hold the disabled tag).
    pub fn get_is_enabled<V: Copy>(&self, w: &World<V>) -> (r: bool)
        requires
            w.wf(),
        ensures
            r == !w.has(self.id, DISABLED),
    {
        !w.has_id(self.id, DISABLED)
    }

    /// Whether the entity holds the exact id `entity`.
    pub fn has_entity<V: Copy>(&self, w: &World<V>, entity: u64) -> (r: bool)
        requires
            w.wf(),
        ensures
            r == w.has(self.id, entity),
    {
        w.has_id(self.id, entity)
    }

    /// Whether the entity holds the struct component.
    pub fn has_struct_component<V: Copy>(&self, w: &World<V>, comp: &ComponentDesc<V>) -> (r: bool)
        requires
            w.wf(),
        ensures
            r == w.has(self.id, comp.id),
    {
        w.has_id(self.id, comp.id)
    }

    /// Whether the entity holds any constant of the enum component: a
    /// wildcard-target pair match.
    pub fn has_enum_component<V: Copy>(&self, w: &World<V>, enum_desc: &EnumDesc) -> (r: bool)
        requires
            w.wf(),
        ensures
            r == w.has_match(self.id, spec_encode(enum_desc.id, WILDCARD)),
    {
        w.has_matching(self.id, encode(enum_desc.id, WILDCARD))
    }

    /// Add a component to the entity (with its default value, if any).
    pub fn add_component<V: Copy>(self, w: &mut World<V>, comp: &ComponentDesc<V>) -> (r: Entity)
        requires
            old(w).wf(),
            old(w).alive(self.id),
        ensures
            r == self,
            crate::world::add_post(*old(w), *final(w), self.id, comp.id, comp.default_value),
    {
        w.add(self.id, comp.id, comp.default_value);
        self
    }

    /// Delete the entity.
    pub fn destruct<V: Copy>(self, w: &mut World<V>)
        requires
            old(w).wf(),
            old(w).alive(self.id),
            !old(w).is_def(),
        ensures
            final(w).wf(),
            !final(w).alive(self.id),
            forall|e2: u64|
                e2 != self.id ==> #[trigger] final(w).alive(e2) == old(w).alive(e2),
            forall|e2: u64, id2: u64|
                e2 != self.id ==> #[trigger] final(w).main_slot(e2, id2) == old(w).main_slot(
                    e2,
                    id2,
                ),
    {
        w.destruct(self.id);
    }

    /// Remove all components from the entity without recycling its id.
    pub fn clear<V: Copy>(&self, w: &mut World<V>)
        requires
            old(w).wf(),
            old(w).alive(self.id),
        ensures
            final(w).wf(),
            final(w).alive(self.id),
            !old(w).is_def() ==> forall|id2: u64| #[trigger] final(w).main_slot(self.id, id2)
                is None,
    {
        w.clear(self.id);
    }

    /// Read the entity's component value.
    pub fn get_component<V: Copy>(&self, w: &World<V>, comp: &ComponentDesc<V>) -> (r: Option<V>)
        requires
            w.wf(),
        ensures
            r == w.value(self.id, comp.id),
    {
        w.get_value(self.id, comp.id)
    }

    /// Read a component value by raw id.
    pub fn get_component_by_id<V: Copy>(&self, w: &World<V>, component_id: u64) -> (r: Option<V>)
        requires
            w.wf(),
        ensures
            r == w.value(self.id, component_id),
    {
        w.get_value(self.id, component_id)
    }

    /// Read a pair's value by its two raw element ids.
    pub fn get_pair_untyped<V: Copy>(&self, w: &World<V>, first: u64, second: u64) -> (r: Option<
        V,
    >)
        requires
            w.wf(),
        ensures
            r == w.value(self.id, spec_encode(first, second)),
    {
        w.get_value(self.id, encode(first, second))
    }

    /// Read the enum component's constant: directly when stored in place,
    /// else from the constant entity the enum pair targets. A target
    /// without a stored constant value violates the resolver contract.
    pub fn get_enum_component<V: Copy>(&self, w: &World<V>, enum_desc: &EnumDesc) -> (r: Result<
        Option<V>,
        EcsError,
    >)
        requires
            w.wf(),
        ensures
            ({
                let target = spec_target_at(*w, self.id, enum_desc.id, 0);
                if target == 0 {
                    r == Ok::<Option<V>, EcsError>(w.value(self.id, enum_desc.id))
                } else if w.value(target, enum_desc.id) is Some {
                    r == Ok::<Option<V>, EcsError>(w.value(target, enum_desc.id))
                } else {
                    r == Err::<Option<V>, EcsError>(EcsError::InternalError)
                }
            }),
    {
        let target = self.get_target_from_entity(w, enum_desc.id, 0);
        if target.id == 0 {
            Ok(w.get_value(self.id, enum_desc.id))
        } else {
            match w.get_value(target.id, enum_desc.id) {
                Some(v) => Ok(Some(v)),
                None => Err(EcsError::InternalError),
            }
        }
    }

    /// The `index`-th target of the relationship `first` on the entity.
    pub fn get_target_from_entity<V: Copy>(&self, w: &World<V>, first: u64, index: usize) -> (r:
        Entity)
        requires
            w.wf(),
        ensures
            r.id == spec_target_at(*w, self.id, first, index as int),
    {
        let ts = targets_of(w, self.id, first);
        if index < ts.len() {
            Entity { id: ts[index] }
        } else {
            Entity { id: 0 }
        }
    }

    /// The `index`-th target of the relationship component on the entity.
    pub fn get_target_from_component<V: Copy>(
        &self,
        w: &World<V>,
        first: &ComponentDesc<V>,
        index: usize,
    ) -> (r: Entity)
        requires
            w.wf(),
        ensures
            r.id == spec_target_at(*w, self.id, first.id, index as int),
    {
        self.get_target_from_entity(w, first.id, index)
    }

    /// The entity's parent: the first target of the hierarchy
    /// relationship.
    pub fn parent<V: Copy>(&self, w: &World<V>) -> (r: Entity)
        requires
            w.wf(),
        ensures
            r.id == spec_target_at(*w, self.id, CHILD_OF, 0),
    {
        self.get_target_from_entity(w, CHILD_OF, 0)
    }

    fn search_target<V: Copy>(&self, w: &World<V>, e: u64, rel: u64, id: u64, fuel: usize) -> (r:
        u64)
        requires
            w.wf(),
        ensures
            r == spec_search(*w, e, rel, id, fuel as nat),
        decreases fuel, 0int, 0int,
    {
        if fuel == 0 {
            0
        } else if w.has_id(e, id) {
            e
        } else {
            let ts = targets_of(w, e, rel);
            proof {
                assert(ts@.skip(0) =~= ts@);
            }
            self.search_list(w, &ts, 0, rel, id, fuel - 1)
        }
    }

    fn search_list<V: Copy>(
        &self,
        w: &World<V>,
        ts: &Vec<u64>,
        from: usize,
        rel: u64,
        id: u64,
        fuel: usize,
    ) -> (r: u64)
        requires
            w.wf(),
            from <= ts@.len(),
        ensures
            r == spec_search_list(*w, ts@.skip(from as int), rel, id, fuel as nat),
        decreases fuel, 1int, ts@.len() - from,
    {
        if from >= ts.len() {
            proof {
                assert(ts@.skip(from as int) =~= Seq::<u64>::empty());
            }
            0
        } else {
            proof {
                assert(ts@.skip(from as int)[0] == ts@[from as int]);
                assert(ts@.skip(from as int).drop_first() =~= ts@.skip(from as int + 1));
            }
            let r = self.search_target(w, ts[from], rel, id, fuel);
            if r != 0 {
                r
            } else {
                self.search_list(w, ts, from + 1, rel, id, fuel)
            }
        }
    }

    /// The first entity that holds `component_id`, reached from this
    /// entity by following `relationship` depth-first in declared target
    /// order; the entity itself when it holds the id, 0 when the bounded
    /// walk finds none.
    pub fn get_target_by_component_id<V: Copy>(
        &self,
        w: &World<V>,
        relationship: u64,
        component_id: u64,
    ) -> (r: Entity)
        requires
            w.wf(),
        ensures
            r.id == spec_search(
                *w,
                self.id,
                relationship,
                component_id,
                w.spec_entities().len() as nat,
            ),
    {
        let fuel = w.entity_count();
        Entity { id: self.search_target(w, self.id, relationship, component_id, fuel) }
    }

    /// The provider of the component reached through `relationship`.
    pub fn get_target_for_component<V: Copy>(
        &self,
        w: &World<V>,
        relationship: u64,
        comp: &ComponentDesc<V>,
    ) -> (r: Entity)
        requires
            w.wf(),
        ensures
            r.id == spec_search(
                *w,
                self.id,
                relationship,
                comp.id,
                w.spec_entities().len() as nat,
            ),
    {
        self.get_target_by_component_id(w, relationship, comp.id)
    }

    /// The provider of the pair of the two components reached through
    /// `relationship`.
    pub fn get_target_for_pair<V: Copy>(
        &self,
        w: &World<V>,
        relationship: u64,
        first: &ComponentDesc<V>,
        second: &ComponentDesc<V>,
    ) -> (r: Entity)
        requires
            w.wf(),
        ensures
            r.id == spec_search(
                *w,
                self.id,
                relationship,
                spec_encode(first.id, second.id),
                w.spec_entities().len() as nat,
            ),
    {
        let pair = encode(first.id, second.id);
        self.get_target_by_component_id(w, relationship, pair)
    }

    /// The hierarchy depth of the entity for `relationship`: the length
    /// of its chain of first targets, bounded by the entity count.
    pub fn get_depth_by_id<V: Copy>(&self, w: &World<V>, relationship: u64) -> (r: usize)
        requires
            w.wf(),
        ensures
            r == spec_depth(*w, self.id, relationship, w.spec_entities().len() as nat),
    {
        let mut fuel = w.entity_count();
        let mut e = self.id;
        let mut depth: usize = 0;
        while fuel > 0
            invariant
                w.wf(),
                depth + spec_depth(*w, e, relationship, fuel as nat) == spec_depth(
                    *w,
                    self.id,
                    relationship,
                    w.spec_entities().len() as nat,
                ),
                depth <= w.spec_entities().len() - fuel,
                w.spec_entities().len() <= usize::MAX,
            decreases fuel,
        {
            let ts = targets_of(w, e, relationship);
            if ts.len() == 0 {
                return depth;
            }
            e = ts[0];
            depth = depth + 1;
            fuel = fuel - 1;
        }
        depth
    }

    /// The hierarchy depth of the entity for the relationship component.
    pub fn get_depth<V: Copy>(&self, w: &World<V>, comp: &ComponentDesc<V>) -> (r: usize)
        requires
            w.wf(),
        ensures
            r == spec_depth(*w, self.id, comp.id, w.spec_entities().len() as nat),
    {
        self.get_depth_by_id(w, comp.id)
    }
}

} // verus!

verus! {

impl Entity {
    /// The children of the entity under `relationship`: the live entities
    /// holding (relationship, self), in row order. A wildcard entity has
    /// no children; asking for them would otherwise match every pair of
    /// the relationship.
    pub fn children_of<V: Copy>(&self, w: &World<V>, relationship: u64) -> (r: Vec<u64>)
        requires
            w.wf(),
        ensures
            r@ == (if self.id == WILDCARD || self.id == ANY {
                Seq::<u64>::empty()
            } else {
                spec_holders(*w, w.spec_entities(), spec_encode(relationship, self.id))
            }),
    {
        if self.id == WILDCARD || self.id == ANY {
            return Vec::new();
        }
        let pair = encode(relationship, self.id);
        let es = w.entities_vec();
        let mut out: Vec<u64> = Vec::new();
        let mut i: usize = 0;
        while i < es.len()
            invariant
                w.wf(),
                i <= es@.len(),
                es@ == w.spec_entities(),
                out@ == spec_holders(*w, es@.take(i as int), pair),
            decreases es@.len() - i,
        {
            proof {
                assert(es@.take(i + 1 as int) =~= es@.take(i as int).push(es@[i as int]));
                assert(es@.take(i + 1 as int).drop_last() =~= es@.take(i as int));
            }
            if w.has_id(es[i], pair) {
                out.push(es[i]);
            }
            i += 1;
        }
        proof {
            assert(es@.take(es@.len() as int) =~= es@);
        }
        out
    }

    /// Call `func` once for each id the entity holds, in column order.
    pub fn for_each_component<V: Copy, F: Fn(Entity)>(&self, w: &World<V>, func: F)
        requires
            w.wf(),
            forall|x: Entity| #[trigger] func.requires((x,)),
    {
        let ids = w.ids_of(self.id);
        let mut i: usize = 0;
        while i < ids.len()
            invariant
                i <= ids@.len(),
                forall|x: Entity| #[trigger] func.requires((x,)),
            decreases ids@.len() - i,
        {
            func(Entity { id: ids[i] });
            i += 1;
        }
    }

    /// Call `func` once for each id the entity holds that matches the
    /// (pred, obj) pattern — obj 0 matches against `pred` alone.
    pub fn for_each_matching_pair<V: Copy, F: Fn(Entity)>(
        &self,
        w: &World<V>,
        pred: u64,
        obj: u64,
        func: F,
    )
        requires
            w.wf(),
            forall|x: Entity| #[trigger] func.requires((x,)),
    {
        let pattern = if obj != 0 {
            encode(pred, obj)
        } else {
            pred
        };
        let ids = w.ids_of(self.id);
        let mut i: usize = 0;
        while i < ids.len()
            invariant
                i <= ids@.len(),
                forall|x: Entity| #[trigger] func.requires((x,)),
            decreases ids@.len() - i,
        {
            if id_matches(ids[i], pattern) {
                func(Entity { id: ids[i] });
            }
            i += 1;
        }
    }

    /// Call `func` once for each target of `relationship` on the entity,
    /// in column order.
    pub fn for_each_target_in_relationship_by_entity<V: Copy, F: Fn(Entity)>(
        &self,
        w: &World<V>,
        relationship: Entity,
        func: F,
    )
        requires
            w.wf(),
            forall|x: Entity| #[trigger] func.requires((x,)),
    {
        let ts = targets_of(w, self.id, relationship.id);
        let mut i: usize = 0;
        while i < ts.len()
            invariant
                i <= ts@.len(),
                forall|x: Entity| #[trigger] func.requires((x,)),
            decreases ts@.len() - i,
        {
            func(Entity { id: ts[i] });
            i += 1;
        }
    }

    /// Call `func` once for each target of the relationship component.
    pub fn for_each_target_in_relationship<V: Copy, F: Fn(Entity)>(
        &self,
        w: &World<V>,
        comp: &ComponentDesc<V>,
        func: F,
    )
        requires
            w.wf(),
            forall|x: Entity| #[trigger] func.requires((x,)),
    {
        self.for_each_target_in_relationship_by_entity(w, Entity { id: comp.id }, func);
    }

    /// Call `func` once for each child of the entity under
    /// `relationship`, in row order.
    pub fn for_each_children<V: Copy, F: Fn(Entity)>(&self, w: &World<V>, relationship: u64, func: F)
        requires
            w.wf(),
            forall|x: Entity| #[trigger] func.requires((x,)),
    {
        let cs = self.children_of(w, relationship);
        let mut i: usize = 0;
        while i < cs.len()
            invariant
                i <= cs@.len(),
                forall|x: Entity| #[trigger] func.requires((x,)),
            decreases cs@.len() - i,
        {
            func(Entity { id: cs[i] });
            i += 1;
        }
    }

    /// Call `func` once for each child under the relationship component.
    pub fn for_each_children1<V: Copy, F: Fn(Entity)>(
        &self,
        w: &World<V>,
        comp: &ComponentDesc<V>,
        func: F,
    )
        requires
            w.wf(),
            forall|x: Entity| #[trigger] func.requires((x,)),
    {
        self.for_each_children(w, comp.id, func);
    }

    /// Call `func` once for each child under the hierarchy relationship.
    pub fn for_each_children2<V: Copy, F: Fn(Entity)>(&self, w: &World<V>, func: F)
        requires
            w.wf(),
            forall|x: Entity| #[trigger] func.requires((x,)),
    {
        self.for_each_children(w, CHILD_OF, func);
    }
}

} // verus!
