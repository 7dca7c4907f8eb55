//! The mutating view of one entity: adds and removes of components, pairs
//! and relationship shortcuts, auto-override markers, value writes through
//! the deferred-mutation engine, enable/disable toggles and modification
//! signals. Every method takes the world it acts on and returns the view
//! for chaining.

use vstd::prelude::*;
use crate::component::ComponentDesc;
use crate::component::EnumDesc;
use crate::entity::Entity;
use crate::ids::CHILD_OF;
use crate::ids::DEPENDS_ON;
use crate::ids::DISABLED;
use crate::ids::EXCLUSIVE;
use crate::ids::IS_A;
use crate::ids::SLOT_OF;
use crate::ids::WILDCARD;
use crate::ids::encode;
use crate::ids::is_pair;
use crate::ids::pair_first;
use crate::ids::pair_second;
use crate::ids::spec_encode;
use crate::ids::spec_is_pair;
use crate::ids::spec_pair_first;
use crate::ids::spec_pair_second;
use crate::ids::spec_with_override;
use crate::ids::with_override;
use crate::mutate::set_post;
use crate::mutate::set_pre;
use crate::mutate::set_value;
use crate::world::Cmd;
use crate::world::World;
use crate::world::add_post;
use crate::world::remove_post;
use crate::world::toggle_post;

verus! {

/// A mutating handle on one entity of a world.
#[derive(PartialEq, Eq, Structural, Clone, Copy, Debug)]
pub struct EntityView {
    pub id: u64,
}

/// What the conditional add leaves behind: an add of the id when the
/// condition holds; otherwise a removal, where a pair whose target is
/// zero — or whose relationship is exclusive on this world — is removed
/// with a wildcard target, so that toggling off removes whatever target
/// currently exists.
pub open spec fn add_if_post<V: Copy>(
    pre: World<V>,
    post: World<V>,
    e: u64,
    id: u64,
    condition: bool,
) -> bool {
    if condition {
        add_post(pre, post, e, id, None::<V>)
    } else if spec_is_pair(id) {
        if spec_pair_second(id) == 0 || pre.has(spec_pair_first(id), EXCLUSIVE) {
            remove_post(pre, post, e, spec_encode(spec_pair_first(id), WILDCARD))
        } else {
            remove_post(pre, post, e, spec_encode(spec_pair_first(id), spec_pair_second(id)))
        }
    } else {
        remove_post(pre, post, e, id)
    }
}

impl EntityView {
    /// A view of the entity with the given id.
    pub fn new(id: u64) -> (r: EntityView)
        ensures
            r.id == id,
    {
        EntityView { id }
    }

    /// Add an id to the entity: a component, a pair, a tag or another
    /// entity. An id added this way carries no constructed value.
    pub fn add_id<V: Copy>(self, w: &mut World<V>, id: u64) -> (r: EntityView)
        requires
            old(w).wf(),
            old(w).alive(self.id),
        ensures
            r == self,
            add_post(*old(w), *final(w), self.id, id, None::<V>),
    {
        w.add(self.id, id, None);
        self
    }

    /// Add a component to the entity; a new column starts with the
    /// component's default value, or unconstructed when it has none
    /// (prefer `set` in that case).
    pub fn add<V: Copy>(self, w: &mut World<V>, comp: &ComponentDesc<V>) -> (r: EntityView)
        requires
            old(w).wf(),
            old(w).alive(self.id),
        ensures
            r == self,
            add_post(*old(w), *final(w), self.id, comp.id, comp.default_value),
    {
        w.add(self.id, comp.id, comp.default_value);
        self
    }

    /// Add the pair (first, Second) where `first` is an entity and the
    /// second element is the component that gives the pair its storage.
    pub fn add_second<V: Copy>(self, w: &mut World<V>, second: &ComponentDesc<V>, first: Entity) -> (r:
        EntityView)
        requires
            old(w).wf(),
            old(w).alive(self.id),
        ensures
            r == self,
            add_post(
                *old(w),
                *final(w),
                self.id,
                spec_encode(first.id, second.id),
                second.default_value,
            ),
    {
        let pair = encode(first.id, second.id);
        w.add(self.id, pair, second.default_value);
        self
    }

    /// Add the pair (First, second) where the first element is the
    /// component that gives the pair its storage.
    pub fn add_first<V: Copy>(self, w: &mut World<V>, first: &ComponentDesc<V>, second: Entity) -> (r:
        EntityView)
        requires
            old(w).wf(),
            old(w).alive(self.id),
        ensures
            r == self,
            add_post(
                *old(w),
                *final(w),
                self.id,
                spec_encode(first.id, second.id),
                first.default_value,
            ),
    {
        let pair = encode(first.id, second.id);
        w.add(self.id, pair, first.default_value);
        self
    }

    /// Add the pair of a tag and an enum constant.
    pub fn add_enum_tag<V: Copy>(
        self,
        w: &mut World<V>,
        first: &ComponentDesc<V>,
        enum_desc: &EnumDesc,
        variant: usize,
    ) -> (r: EntityView)
        requires
            old(w).wf(),
            old(w).alive(self.id),
            variant < enum_desc.variants@.len(),
        ensures
            r == self,
            add_post(
                *old(w),
                *final(w),
                self.id,
                spec_encode(first.id, enum_desc.variants@[variant as int]),
                first.default_value,
            ),
    {
        let c = enum_desc.get_id_variant(variant);
        let pair = encode(first.id, c);
        w.add(self.id, pair, first.default_value);
        self
    }

    /// Add the pair of the enum component and one of its constants.
    pub fn add_enum<V: Copy>(self, w: &mut World<V>, enum_desc: &EnumDesc, variant: usize) -> (r:
        EntityView)
        requires
            old(w).wf(),
            old(w).alive(self.id),
            enum_desc.valid(),
            variant < enum_desc.variants@.len(),
        ensures
            r == self,
            add_post(
                *old(w),
                *final(w),
                self.id,
                spec_encode(enum_desc.id, enum_desc.variants@[variant as int]),
                None::<V>,
            ),
    {
        let c = enum_desc.get_id_variant(variant);
        let pair = encode(enum_desc.id, c);
        w.add(self.id, pair, None);
        self
    }

    /// Conditional add of a raw id: add when the condition holds, remove
    /// otherwise. Removing a pair whose target is zero, or whose
    /// relationship is exclusive, uses a wildcard target so that whatever
    /// target currently exists is removed.
    pub fn add_id_if<V: Copy>(self, w: &mut World<V>, id: u64, condition: bool) -> (r: EntityView)
        requires
            old(w).wf(),
            old(w).alive(self.id),
        ensures
            r == self,
            add_if_post(*old(w), *final(w), self.id, id, condition),
    {
        if condition {
            w.add(self.id, id, None);
        } else {
            if is_pair(id) {
                let first = pair_first(id);
                let mut second = pair_second(id);
                if second == 0 || w.has_id(first, EXCLUSIVE) {
                    second = WILDCARD;
                }
                w.remove(self.id, encode(first, second));
            } else {
                w.remove(self.id, id);
            }
        }
        self
    }

    /// Conditional add of a component: add (with its default) when the
    /// condition holds, remove otherwise.
    pub fn add_if<V: Copy>(self, w: &mut World<V>, comp: &ComponentDesc<V>, condition: bool) -> (r:
        EntityView)
        requires
            old(w).wf(),
            old(w).alive(self.id),
        ensures
            r == self,
            condition ==> add_post(*old(w), *final(w), self.id, comp.id, comp.default_value),
            !condition ==> remove_post(*old(w), *final(w), self.id, comp.id),
    {
        if condition {
            w.add(self.id, comp.id, comp.default_value);
        } else {
            w.remove(self.id, comp.id);
        }
        self
    }

    /// Conditional add of the pair (First, second).
    pub fn add_first_if<V: Copy>(
        self,
        w: &mut World<V>,
        first: &ComponentDesc<V>,
        second: Entity,
        condition: bool,
    ) -> (r: EntityView)
        requires
            old(w).wf(),
            old(w).alive(self.id),
        ensures
            r == self,
            add_if_post(*old(w), *final(w), self.id, spec_encode(first.id, second.id), condition),
    {
        let pair = encode(first.id, second.id);
        self.add_id_if(w, pair, condition)
    }

    /// Conditional add of the pair (first, Second).
    pub fn add_second_if<V: Copy>(
        self,
        w: &mut World<V>,
        second: &ComponentDesc<V>,
        first: Entity,
        condition: bool,
    ) -> (r: EntityView)
        requires
            old(w).wf(),
            old(w).alive(self.id),
        ensures
            r == self,
            add_if_post(*old(w), *final(w), self.id, spec_encode(first.id, second.id), condition),
    {
        let pair = encode(first.id, second.id);
        self.add_id_if(w, pair, condition)
    }

    /// Conditional add of the pair of an enum component and a constant.
    pub fn add_enum_tag_if<V: Copy>(
        self,
        w: &mut World<V>,
        enum_desc: &EnumDesc,
        variant: usize,
        condition: bool,
    ) -> (r: EntityView)
        requires
            old(w).wf(),
            old(w).alive(self.id),
            variant < enum_desc.variants@.len(),
        ensures
            r == self,
            add_if_post(
                *old(w),
                *final(w),
                self.id,
                spec_encode(enum_desc.id, enum_desc.variants@[variant as int]),
                condition,
            ),
    {
        let c = enum_desc.get_id_variant(variant);
        let pair = encode(enum_desc.id, c);
        self.add_id_if(w, pair, condition)
    }

    /// Write a component value through the mutation protocol (construct
    /// directly in storage; destroy a prior value exactly once).
    pub fn insert<V: Copy>(self, w: &mut World<V>, comp: &ComponentDesc<V>, value: V) -> (r:
        EntityView)
        requires
            old(w).wf(),
            comp.valid(),
            set_pre(*old(w), self.id, comp.id, *comp),
        ensures
            r == self,
            set_post(*old(w), *final(w), self.id, comp.id, *comp, value),
    {
        set_value(w, self.id, comp, comp.id, value);
        self
    }

    /// Remove every id of the entity matching the given id or pattern.
    pub fn remove_id<V: Copy>(self, w: &mut World<V>, id: u64) -> (r: EntityView)
        requires
            old(w).wf(),
            old(w).alive(self.id),
        ensures
            r == self,
            remove_post(*old(w), *final(w), self.id, id),
    {
        w.remove(self.id, id);
        self
    }

    /// Remove a component; an enum component is removed with a wildcard
    /// target, covering whichever constant is held.
    pub fn remove<V: Copy>(self, w: &mut World<V>, comp: &ComponentDesc<V>) -> (r: EntityView)
        requires
            old(w).wf(),
            old(w).alive(self.id),
        ensures
            r == self,
            comp.is_enum ==> remove_post(
                *old(w),
                *final(w),
                self.id,
                spec_encode(comp.id, WILDCARD),
            ),
            !comp.is_enum ==> remove_post(*old(w), *final(w), self.id, comp.id),
    {
        if comp.is_enum {
            let pair = encode(comp.id, WILDCARD);
            w.remove(self.id, pair);
        } else {
            w.remove(self.id, comp.id);
        }
        self
    }

    /// Remove the pair of an enum component and one constant.
    pub fn remove_enum_tag<V: Copy>(
        self,
        w: &mut World<V>,
        first: &ComponentDesc<V>,
        enum_desc: &EnumDesc,
        variant: usize,
    ) -> (r: EntityView)
        requires
            old(w).wf(),
            old(w).alive(self.id),
            variant < enum_desc.variants@.len(),
        ensures
            r == self,
            remove_post(
                *old(w),
                *final(w),
                self.id,
                spec_encode(first.id, enum_desc.variants@[variant as int]),
            ),
    {
        let c = enum_desc.get_id_variant(variant);
        let pair = encode(first.id, c);
        w.remove(self.id, pair);
        self
    }

    /// Remove the pair (First, second).
    pub fn remove_first<V: Copy>(self, w: &mut World<V>, first: &ComponentDesc<V>, second: Entity) -> (r:
        EntityView)
        requires
            old(w).wf(),
            old(w).alive(self.id),
        ensures
            r == self,
            remove_post(*old(w), *final(w), self.id, spec_encode(first.id, second.id)),
    {
        let pair = encode(first.id, second.id);
        w.remove(self.id, pair);
        self
    }

    /// Remove the pair (first, Second).
    pub fn remove_second<V: Copy>(self, w: &mut World<V>, second: &ComponentDesc<V>, first: Entity) -> (r:
        EntityView)
        requires
            old(w).wf(),
            old(w).alive(self.id),
        ensures
            r == self,
            remove_post(*old(w), *final(w), self.id, spec_encode(first.id, second.id)),
    {
        let pair = encode(first.id, second.id);
        w.remove(self.id, pair);
        self
    }

    /// Shortcut for adding the inheritance pair to an entity.
    pub fn is_a_id<V: Copy>(self, w: &mut World<V>, second: Entity) -> (r: EntityView)
        requires
            old(w).wf(),
            old(w).alive(self.id),
        ensures
            r == self,
            add_post(*old(w), *final(w), self.id, spec_encode(IS_A, second.id), None::<V>),
    {
        let pair = encode(IS_A, second.id);
        w.add(self.id, pair, None);
        self
    }

    /// Shortcut for inheriting from the entity of a component.
    pub fn is_a<V: Copy>(self, w: &mut World<V>, comp: &ComponentDesc<V>) -> (r: EntityView)
        requires
            old(w).wf(),
            old(w).alive(self.id),
        ensures
            r == self,
            add_post(*old(w), *final(w), self.id, spec_encode(IS_A, comp.id), None::<V>),
    {
        let pair = encode(IS_A, comp.id);
        w.add(self.id, pair, None);
        self
    }

    /// Shortcut for adding the hierarchy pair to a parent entity.
    pub fn child_of_id<V: Copy>(self, w: &mut World<V>, parent: Entity) -> (r: EntityView)
        requires
            old(w).wf(),
            old(w).alive(self.id),
        ensures
            r == self,
            add_post(*old(w), *final(w), self.id, spec_encode(CHILD_OF, parent.id), None::<V>),
    {
        let pair = encode(CHILD_OF, parent.id);
        w.add(self.id, pair, None);
        self
    }

    /// Shortcut for becoming a child of the entity of a component.
    pub fn child_of<V: Copy>(self, w: &mut World<V>, comp: &ComponentDesc<V>) -> (r: EntityView)
        requires
            old(w).wf(),
            old(w).alive(self.id),
        ensures
            r == self,
            add_post(*old(w), *final(w), self.id, spec_encode(CHILD_OF, comp.id), None::<V>),
    {
        let pair = encode(CHILD_OF, comp.id);
        w.add(self.id, pair, None);
        self
    }

    /// Shortcut for adding the dependency pair to an entity.
    pub fn depends_on_id<V: Copy>(self, w: &mut World<V>, second: Entity) -> (r: EntityView)
        requires
            old(w).wf(),
            old(w).alive(self.id),
        ensures
            r == self,
            add_post(*old(w), *final(w), self.id, spec_encode(DEPENDS_ON, second.id), None::<V>),
    {
        let pair = encode(DEPENDS_ON, second.id);
        w.add(self.id, pair, None);
        self
    }

    /// Shortcut for depending on the entity of a component.
    pub fn depends_on<V: Copy>(self, w: &mut World<V>, comp: &ComponentDesc<V>) -> (r: EntityView)
        requires
            old(w).wf(),
            old(w).alive(self.id),
        ensures
            r == self,
            add_post(*old(w), *final(w), self.id, spec_encode(DEPENDS_ON, comp.id), None::<V>),
    {
        let pair = encode(DEPENDS_ON, comp.id);
        w.add(self.id, pair, None);
        self
    }

    /// Shortcut for depending on one constant of an enum component.
    pub fn depends_on_enum<V: Copy>(
        self,
        w: &mut World<V>,
        enum_desc: &EnumDesc,
        variant: usize,
    ) -> (r: EntityView)
        requires
            old(w).wf(),
            old(w).alive(self.id),
            variant < enum_desc.variants@.len(),
        ensures
            r == self,
            add_post(
                *old(w),
                *final(w),
                self.id,
                spec_encode(DEPENDS_ON, enum_desc.variants@[variant as int]),
                None::<V>,
            ),
    {
        let c = enum_desc.get_id_variant(variant);
        let pair = encode(DEPENDS_ON, c);
        w.add(self.id, pair, None);
        self
    }

    /// Shortcut for adding the prefab-slot pair to an entity.
    pub fn slot_of_id<V: Copy>(self, w: &mut World<V>, second: Entity) -> (r: EntityView)
        requires
            old(w).wf(),
            old(w).alive(self.id),
        ensures
            r == self,
            add_post(*old(w), *final(w), self.id, spec_encode(SLOT_OF, second.id), None::<V>),
    {
        let pair = encode(SLOT_OF, second.id);
        w.add(self.id, pair, None);
        self
    }

    /// Shortcut for becoming a slot of the entity of a component.
    pub fn slot_of<V: Copy>(self, w: &mut World<V>, comp: &ComponentDesc<V>) -> (r: EntityView)
        requires
            old(w).wf(),
            old(w).alive(self.id),
        ensures
            r == self,
            add_post(*old(w), *final(w), self.id, spec_encode(SLOT_OF, comp.id), None::<V>),
    {
        let pair = encode(SLOT_OF, comp.id);
        w.add(self.id, pair, None);
        self
    }

    /// Shortcut for becoming a slot of the entity's current parent. The
    /// hierarchy pair must have been added first.
    pub fn slot<V: Copy>(self, w: &mut World<V>) -> (r: EntityView)
        requires
            old(w).wf(),
            old(w).alive(self.id),
            crate::entity::spec_target_at(*old(w), self.id, CHILD_OF, 0) != 0,
        ensures
            r == self,
            add_post(
                *old(w),
                *final(w),
                self.id,
                spec_encode(SLOT_OF, crate::entity::spec_target_at(*old(w), self.id, CHILD_OF, 0)),
                None::<V>,
            ),
    {
        let ent = Entity { id: self.id };
        let parent = ent.get_target_from_entity(w, CHILD_OF, 0);
        let pair = encode(SLOT_OF, parent.id);
        w.add(self.id, pair, None);
        self
    }

    /// Mark an id for auto-overriding on inheritance.
    pub fn override_id<V: Copy>(self, w: &mut World<V>, id: u64) -> (r: EntityView)
        requires
            old(w).wf(),
            old(w).alive(self.id),
        ensures
            r == self,
            add_post(*old(w), *final(w), self.id, spec_with_override(id), None::<V>),
    {
        let marked = with_override(id);
        w.add(self.id, marked, None);
        self
    }

    /// Mark a component for auto-overriding.
    pub fn override_type<V: Copy>(self, w: &mut World<V>, comp: &ComponentDesc<V>) -> (r: EntityView)
        requires
            old(w).wf(),
            old(w).alive(self.id),
        ensures
            r == self,
            add_post(*old(w), *final(w), self.id, spec_with_override(comp.id), None::<V>),
    {
        self.override_id(w, comp.id)
    }

    /// Mark the pair (First, second) for auto-overriding.
    pub fn override_first<V: Copy>(self, w: &mut World<V>, first: &ComponentDesc<V>, second: Entity) -> (r:
        EntityView)
        requires
            old(w).wf(),
            old(w).alive(self.id),
        ensures
            r == self,
            add_post(
                *old(w),
                *final(w),
                self.id,
                spec_with_override(spec_encode(first.id, second.id)),
                None::<V>,
            ),
    {
        let pair = encode(first.id, second.id);
        self.override_id(w, pair)
    }

    /// Mark the pair (first, Second) for auto-overriding.
    pub fn override_second<V: Copy>(self, w: &mut World<V>, second: &ComponentDesc<V>, first: Entity) -> (r:
        EntityView)
        requires
            old(w).wf(),
            old(w).alive(self.id),
        ensures
            r == self,
            add_post(
                *old(w),
                *final(w),
                self.id,
                spec_with_override(spec_encode(first.id, second.id)),
                None::<V>,
            ),
    {
        let pair = encode(first.id, second.id);
        self.override_id(w, pair)
    }

    /// Add the auto-override marker for an id.
    pub fn set_override_id<V: Copy>(self, w: &mut World<V>, id: u64) -> (r: EntityView)
        requires
            old(w).wf(),
            old(w).alive(self.id),
        ensures
            r == self,
            add_post(*old(w), *final(w), self.id, spec_with_override(id), None::<V>),
    {
        self.override_id(w, id)
    }
}

} // verus!

verus! {

proof fn lemma_set_pre_after_marker<V: Copy>(
    pre: World<V>,
    mid: World<V>,
    e: u64,
    marker: u64,
    id: u64,
    desc: ComponentDesc<V>,
)
    requires
        marker != id,
        set_pre(pre, e, id, desc),
        add_post(pre, mid, e, marker, None::<V>),
    ensures
        set_pre(mid, e, id, desc),
{
    assert(mid.main_slot(e, id) == pre.main_slot(e, id));
    assert(mid.alive(e) == pre.alive(e));
    if pre.is_def() {
        crate::world::lemma_drain_snoc(
            pre.queue(),
            Cmd::AddCmd { entity: e, id: marker, init: None::<V> },
            e,
            id,
            mid.main_slot(e, id),
        );
        assert(mid.pending_slot(e, id) == pre.pending_slot(e, id));
    }
}

impl EntityView {
    /// Set a component's auto-override marker and write its value.
    pub fn set_override<V: Copy>(self, w: &mut World<V>, comp: &ComponentDesc<V>, value: V) -> (r:
        EntityView)
        requires
            old(w).wf(),
            comp.valid(),
            set_pre(*old(w), self.id, comp.id, *comp),
        ensures
            r == self,
            exists|mid: World<V>|
                #[trigger] add_post(*old(w), mid, self.id, spec_with_override(comp.id), None::<V>)
                    && set_post(mid, *final(w), self.id, comp.id, *comp, value),
    {
        proof {
            crate::ids::lemma_override_differs(comp.id);
        }
        let marked = with_override(comp.id);
        w.add(self.id, marked, None);
        let ghost mid = *w;
        proof {
            lemma_set_pre_after_marker(*old(w), mid, self.id, marked, comp.id, *comp);
        }
        set_value(w, self.id, comp, comp.id, value);
        proof {
            assert(add_post(*old(w), mid, self.id, spec_with_override(comp.id), None::<V>)
                && set_post(mid, *final(w), self.id, comp.id, *comp, value));
        }
        self
    }

    /// Set a pair's value; the first non-tag element gives the pair its
    /// element type. Setting a pair of two tags is not possible.
    pub fn set_pair<V: Copy>(
        self,
        w: &mut World<V>,
        first: &ComponentDesc<V>,
        second: &ComponentDesc<V>,
        value: V,
    ) -> (r: EntityView)
        requires
            old(w).wf(),
            !(first.is_tag && second.is_tag),
            first.valid(),
            second.valid(),
            set_pre(
                *old(w),
                self.id,
                spec_encode(first.id, second.id),
                if !first.is_tag {
                    *first
                } else {
                    *second
                },
            ),
        ensures
            r == self,
            set_post(
                *old(w),
                *final(w),
                self.id,
                spec_encode(first.id, second.id),
                if !first.is_tag {
                    *first
                } else {
                    *second
                },
                value,
            ),
    {
        let pair = encode(first.id, second.id);
        if !first.is_tag {
            set_value(w, self.id, first, pair, value);
        } else {
            set_value(w, self.id, second, pair, value);
        }
        self
    }

    /// Mark a pair for auto-overriding and write its value.
    pub fn set_pair_override<V: Copy>(
        self,
        w: &mut World<V>,
        first: &ComponentDesc<V>,
        second: &ComponentDesc<V>,
        value: V,
    ) -> (r: EntityView)
        requires
            old(w).wf(),
            !(first.is_tag && second.is_tag),
            first.valid(),
            second.valid(),
            set_pre(
                *old(w),
                self.id,
                spec_encode(first.id, second.id),
                if !first.is_tag {
                    *first
                } else {
                    *second
                },
            ),
        ensures
            r == self,
            exists|mid: World<V>|
                #[trigger] add_post(
                    *old(w),
                    mid,
                    self.id,
                    spec_with_override(spec_encode(first.id, second.id)),
                    None::<V>,
                ) && set_post(
                    mid,
                    *final(w),
                    self.id,
                    spec_encode(first.id, second.id),
                    if !first.is_tag {
                        *first
                    } else {
                        *second
                    },
                    value,
                ),
    {
        let pair = encode(first.id, second.id);
        proof {
            crate::ids::lemma_override_differs_pair(first.id, second.id);
        }
        let marked = with_override(pair);
        w.add(self.id, marked, None);
        let ghost mid = *w;
        proof {
            if !first.is_tag {
                lemma_set_pre_after_marker(*old(w), mid, self.id, marked, pair, *first);
            } else {
                lemma_set_pre_after_marker(*old(w), mid, self.id, marked, pair, *second);
            }
        }
        if !first.is_tag {
            set_value(w, self.id, first, pair, value);
        } else {
            set_value(w, self.id, second, pair, value);
        }
        proof {
            assert(add_post(*old(w), mid, self.id, spec_with_override(pair), None::<V>)
                && set_post(
                mid,
                *final(w),
                self.id,
                pair,
                if !first.is_tag {
                    *first
                } else {
                    *second
                },
                value,
            ));
        }
        self
    }

    /// Mark the pair (First, second) for auto-overriding and write its
    /// value (of the first element's type).
    pub fn set_override_first<V: Copy>(
        self,
        w: &mut World<V>,
        first: &ComponentDesc<V>,
        second: Entity,
        value: V,
    ) -> (r: EntityView)
        requires
            old(w).wf(),
            first.valid(),
            !first.is_tag,
            second.id < 0x1_0000_0000,
            set_pre(*old(w), self.id, spec_encode(first.id, second.id), *first),
        ensures
            r == self,
            exists|mid: World<V>|
                #[trigger] add_post(
                    *old(w),
                    mid,
                    self.id,
                    spec_with_override(spec_encode(first.id, second.id)),
                    None::<V>,
                ) && set_post(mid, *final(w), self.id, spec_encode(first.id, second.id), *first, value),
    {
        let pair = encode(first.id, second.id);
        proof {
            crate::ids::lemma_override_differs_pair(first.id, second.id);
        }
        let marked = with_override(pair);
        w.add(self.id, marked, None);
        let ghost mid = *w;
        proof {
            lemma_set_pre_after_marker(*old(w), mid, self.id, marked, pair, *first);
        }
        set_value(w, self.id, first, pair, value);
        proof {
            assert(add_post(*old(w), mid, self.id, spec_with_override(pair), None::<V>)
                && set_post(mid, *final(w), self.id, pair, *first, value));
        }
        self
    }

    /// Mark the pair (first, Second) for auto-overriding and write its
    /// value (of the second element's type).
    pub fn set_override_second<V: Copy>(
        self,
        w: &mut World<V>,
        second: &ComponentDesc<V>,
        first: Entity,
        value: V,
    ) -> (r: EntityView)
        requires
            old(w).wf(),
            second.valid(),
            !second.is_tag,
            first.id < 0x1000_0000,
            set_pre(*old(w), self.id, spec_encode(first.id, second.id), *second),
        ensures
            r == self,
            exists|mid: World<V>|
                #[trigger] add_post(
                    *old(w),
                    mid,
                    self.id,
                    spec_with_override(spec_encode(first.id, second.id)),
                    None::<V>,
                ) && set_post(mid, *final(w), self.id, spec_encode(first.id, second.id), *second, value),
    {
        let pair = encode(first.id, second.id);
        proof {
            crate::ids::lemma_override_differs_pair(first.id, second.id);
        }
        let marked = with_override(pair);
        w.add(self.id, marked, None);
        let ghost mid = *w;
        proof {
            lemma_set_pre_after_marker(*old(w), mid, self.id, marked, pair, *second);
        }
        set_value(w, self.id, second, pair, value);
        proof {
            assert(add_post(*old(w), mid, self.id, spec_with_override(pair), None::<V>)
                && set_post(mid, *final(w), self.id, pair, *second, value));
        }
        self
    }

    /// Set a component's value: add it if absent, overwrite if present,
    /// with exactly one modification signal.
    pub fn set<V: Copy>(self, w: &mut World<V>, comp: &ComponentDesc<V>, value: V) -> (r:
        EntityView)
        requires
            old(w).wf(),
            comp.valid(),
            set_pre(*old(w), self.id, comp.id, *comp),
        ensures
            r == self,
            set_post(*old(w), *final(w), self.id, comp.id, *comp, value),
    {
        set_value(w, self.id, comp, comp.id, value);
        self
    }

    /// Set the value stored under a raw id. That the id's elements are of
    /// the descriptor's type is the caller's precondition.
    pub fn set_id<V: Copy>(self, w: &mut World<V>, desc: &ComponentDesc<V>, value: V, id: u64) -> (r:
        EntityView)
        requires
            old(w).wf(),
            desc.valid(),
            set_pre(*old(w), self.id, id, *desc),
        ensures
            r == self,
            set_post(*old(w), *final(w), self.id, id, *desc, value),
    {
        set_value(w, self.id, desc, id, value);
        self
    }

    /// Set the value of the pair (First, second).
    pub fn set_first<V: Copy>(
        self,
        w: &mut World<V>,
        first: &ComponentDesc<V>,
        second: Entity,
        value: V,
    ) -> (r: EntityView)
        requires
            old(w).wf(),
            first.valid(),
            !first.is_tag,
            set_pre(*old(w), self.id, spec_encode(first.id, second.id), *first),
        ensures
            r == self,
            set_post(*old(w), *final(w), self.id, spec_encode(first.id, second.id), *first, value),
    {
        let pair = encode(first.id, second.id);
        set_value(w, self.id, first, pair, value);
        self
    }

    /// Set the value of the pair (first, Second).
    pub fn set_second<V: Copy>(
        self,
        w: &mut World<V>,
        second: &ComponentDesc<V>,
        first: Entity,
        value: V,
    ) -> (r: EntityView)
        requires
            old(w).wf(),
            second.valid(),
            !second.is_tag,
            set_pre(*old(w), self.id, spec_encode(first.id, second.id), *second),
        ensures
            r == self,
            set_post(*old(w), *final(w), self.id, spec_encode(first.id, second.id), *second, value),
    {
        let pair = encode(first.id, second.id);
        set_value(w, self.id, second, pair, value);
        self
    }

    /// Set the value of the pair (First, constant) for one enum constant.
    pub fn set_enum_first<V: Copy>(
        self,
        w: &mut World<V>,
        first: &ComponentDesc<V>,
        enum_desc: &EnumDesc,
        variant: usize,
        value: V,
    ) -> (r: EntityView)
        requires
            old(w).wf(),
            first.valid(),
            !first.is_tag,
            variant < enum_desc.variants@.len(),
            set_pre(
                *old(w),
                self.id,
                spec_encode(first.id, enum_desc.variants@[variant as int]),
                *first,
            ),
        ensures
            r == self,
            set_post(
                *old(w),
                *final(w),
                self.id,
                spec_encode(first.id, enum_desc.variants@[variant as int]),
                *first,
                value,
            ),
    {
        let c = enum_desc.get_id_variant(variant);
        let pair = encode(first.id, c);
        set_value(w, self.id, first, pair, value);
        self
    }

    /// Enable the entity itself: remove the disabled tag.
    pub fn enable_self<V: Copy>(self, w: &mut World<V>) -> (r: EntityView)
        requires
            old(w).wf(),
            old(w).alive(self.id),
        ensures
            r == self,
            remove_post(*old(w), *final(w), self.id, DISABLED),
    {
        w.remove(self.id, DISABLED);
        self
    }

    /// Disable the entity itself: add the disabled tag.
    pub fn disable_self<V: Copy>(self, w: &mut World<V>) -> (r: EntityView)
        requires
            old(w).wf(),
            old(w).alive(self.id),
        ensures
            r == self,
            add_post(*old(w), *final(w), self.id, DISABLED, None::<V>),
    {
        w.add(self.id, DISABLED, None);
        self
    }

    /// Set the enabled bit of an id (component or pair).
    pub fn enable_id<V: Copy>(self, w: &mut World<V>, id: u64) -> (r: EntityView)
        requires
            old(w).wf(),
            old(w).alive(self.id),
        ensures
            r == self,
            toggle_post(*old(w), *final(w), self.id, id, true),
    {
        w.enable_id(self.id, id, true);
        self
    }

    /// Enable a component.
    pub fn enable<V: Copy>(self, w: &mut World<V>, comp: &ComponentDesc<V>) -> (r: EntityView)
        requires
            old(w).wf(),
            old(w).alive(self.id),
        ensures
            r == self,
            toggle_post(*old(w), *final(w), self.id, comp.id, true),
    {
        w.enable_id(self.id, comp.id, true);
        self
    }

    /// Enable the pair (First, second).
    pub fn enable_second<V: Copy>(self, w: &mut World<V>, first: &ComponentDesc<V>, second: Entity) -> (r:
        EntityView)
        requires
            old(w).wf(),
            old(w).alive(self.id),
        ensures
            r == self,
            toggle_post(*old(w), *final(w), self.id, spec_encode(first.id, second.id), true),
    {
        let pair = encode(first.id, second.id);
        w.enable_id(self.id, pair, true);
        self
    }

    /// Clear the enabled bit of an id.
    pub fn disable_id<V: Copy>(self, w: &mut World<V>, id: u64) -> (r: EntityView)
        requires
            old(w).wf(),
            old(w).alive(self.id),
        ensures
            r == self,
            toggle_post(*old(w), *final(w), self.id, id, false),
    {
        w.enable_id(self.id, id, false);
        self
    }

    /// Disable a component.
    pub fn disable<V: Copy>(self, w: &mut World<V>, comp: &ComponentDesc<V>) -> (r: EntityView)
        requires
            old(w).wf(),
            old(w).alive(self.id),
        ensures
            r == self,
            toggle_post(*old(w), *final(w), self.id, comp.id, false),
    {
        w.enable_id(self.id, comp.id, false);
        self
    }

    /// Disable the pair (First, second).
    pub fn disable_first<V: Copy>(self, w: &mut World<V>, first: &ComponentDesc<V>, second: Entity) -> (r:
        EntityView)
        requires
            old(w).wf(),
            old(w).alive(self.id),
        ensures
            r == self,
            toggle_post(*old(w), *final(w), self.id, spec_encode(first.id, second.id), false),
    {
        let pair = encode(first.id, second.id);
        w.enable_id(self.id, pair, false);
        self
    }

    /// Signal that an id (component or pair) was modified.
    pub fn modified_id<V: Copy>(self, w: &mut World<V>, id: u64)
        requires
            old(w).wf(),
        ensures
            final(w).wf(),
            final(w).mods() == old(w).mods().push((self.id, id)),
            final(w).mod_count(self.id, id) == old(w).mod_count(self.id, id) + 1,
            forall|e2: u64, id2: u64| #[trigger]
                final(w).main_slot(e2, id2) == old(w).main_slot(e2, id2),
    {
        w.mark_modified(self.id, id);
    }

    /// Signal that a component was modified. Zero-sized tags carry no
    /// value that could have been modified.
    pub fn modified<V: Copy>(&self, w: &mut World<V>, comp: &ComponentDesc<V>)
        requires
            old(w).wf(),
            !comp.is_tag,
        ensures
            final(w).wf(),
            final(w).mods() == old(w).mods().push((self.id, comp.id)),
            final(w).mod_count(self.id, comp.id) == old(w).mod_count(self.id, comp.id) + 1,
            forall|e2: u64, id2: u64| #[trigger]
                final(w).main_slot(e2, id2) == old(w).main_slot(e2, id2),
    {
        w.mark_modified(self.id, comp.id);
    }

    /// Signal that the pair (First, second) was modified.
    pub fn modified_first<V: Copy>(self, w: &mut World<V>, first: &ComponentDesc<V>, second: Entity)
        requires
            old(w).wf(),
            !first.is_tag,
        ensures
            final(w).wf(),
            final(w).mods() == old(w).mods().push((self.id, spec_encode(first.id, second.id))),
            final(w).mod_count(self.id, spec_encode(first.id, second.id)) == old(w).mod_count(
                self.id,
                spec_encode(first.id, second.id),
            ) + 1,
            forall|e2: u64, id2: u64| #[trigger]
                final(w).main_slot(e2, id2) == old(w).main_slot(e2, id2),
    {
        let pair = encode(first.id, second.id);
        w.mark_modified(self.id, pair);
    }

    /// Remove all components from the entity without recycling its id.
    pub fn clear<V: Copy>(&self, w: &mut World<V>)
        requires
            old(w).wf(),
            old(w).alive(self.id),
        ensures
            final(w).wf(),
            final(w).alive(self.id),
            !old(w).is_def() ==> forall|id2: u64| #[trigger] final(w).main_slot(self.id, id2)
                is None,
    {
        w.clear(self.id);
    }

    /// Delete the entity.
    pub fn destruct<V: Copy>(self, w: &mut World<V>)
        requires
            old(w).wf(),
            old(w).alive(self.id),
            !old(w).is_def(),
        ensures
            final(w).wf(),
            !final(w).alive(self.id),
            forall|e2: u64|
                e2 != self.id ==> #[trigger] final(w).alive(e2) == old(w).alive(e2),
    {
        w.destruct(self.id);
    }
}

} // verus!

verus! {

impl EntityView {
    /// Run `func` with the world's `with`-context set to this entity:
    /// entities created inside receive this entity's id. The previous
    /// context is restored on exit.
    pub fn with<V: Copy, F: FnOnce(World<V>) -> World<V>>(self, w: World<V>, func: F) -> (r: (
        EntityView,
        World<V>,
    ))
        requires
            w.wf(),
            forall|x: World<V>| x.wf() ==> #[trigger] func.requires((x,)),
            forall|x: World<V>, y: World<V>| #[trigger] func.ensures((x,), y) ==> y.wf(),
        ensures
            r.0 == self,
            r.1.wf(),
            r.1.with_id() == w.with_id(),
            exists|mid: World<V>|
                #[trigger] func.ensures((w.spec_with_ctx_set(self.id),), mid) && r.1
                    == mid.spec_with_ctx_set(w.with_id()),
    {
        let mut w = w;
        let prev = w.set_with(self.id);
        let mut w2 = func(w);
        let _restored = w2.set_with(prev);
        (self, w2)
    }

    /// Run `func` with the `with`-context set to the pair (first, self).
    pub fn with_first_id<V: Copy, F: FnOnce(World<V>) -> World<V>>(
        self,
        w: World<V>,
        first: Entity,
        func: F,
    ) -> (r: (EntityView, World<V>))
        requires
            w.wf(),
            forall|x: World<V>| x.wf() ==> #[trigger] func.requires((x,)),
            forall|x: World<V>, y: World<V>| #[trigger] func.ensures((x,), y) ==> y.wf(),
        ensures
            r.0 == self,
            r.1.wf(),
            r.1.with_id() == w.with_id(),
            exists|mid: World<V>|
                #[trigger] func.ensures(
                    (w.spec_with_ctx_set(spec_encode(first.id, self.id)),),
                    mid,
                ) && r.1 == mid.spec_with_ctx_set(w.with_id()),
    {
        let mut w = w;
        let pair = encode(first.id, self.id);
        let prev = w.set_with(pair);
        let mut w2 = func(w);
        let _restored = w2.set_with(prev);
        (self, w2)
    }

    /// Run `func` with the `with`-context set to the pair (self, second).
    pub fn with_second_id<V: Copy, F: FnOnce(World<V>) -> World<V>>(
        self,
        w: World<V>,
        second: Entity,
        func: F,
    ) -> (r: (EntityView, World<V>))
        requires
            w.wf(),
            forall|x: World<V>| x.wf() ==> #[trigger] func.requires((x,)),
            forall|x: World<V>, y: World<V>| #[trigger] func.ensures((x,), y) ==> y.wf(),
        ensures
            r.0 == self,
            r.1.wf(),
            r.1.with_id() == w.with_id(),
            exists|mid: World<V>|
                #[trigger] func.ensures(
                    (w.spec_with_ctx_set(spec_encode(self.id, second.id)),),
                    mid,
                ) && r.1 == mid.spec_with_ctx_set(w.with_id()),
    {
        let mut w = w;
        let pair = encode(self.id, second.id);
        let prev = w.set_with(pair);
        let mut w2 = func(w);
        let _restored = w2.set_with(prev);
        (self, w2)
    }

    /// Run `func` with the `with`-context set to (First, self).
    pub fn with_first<V: Copy, F: FnOnce(World<V>) -> World<V>>(
        self,
        w: World<V>,
        first: &ComponentDesc<V>,
        func: F,
    ) -> (r: (EntityView, World<V>))
        requires
            w.wf(),
            forall|x: World<V>| x.wf() ==> #[trigger] func.requires((x,)),
            forall|x: World<V>, y: World<V>| #[trigger] func.ensures((x,), y) ==> y.wf(),
        ensures
            r.0 == self,
            r.1.wf(),
            r.1.with_id() == w.with_id(),
            exists|mid: World<V>|
                #[trigger] func.ensures(
                    (w.spec_with_ctx_set(spec_encode(first.id, self.id)),),
                    mid,
                ) && r.1 == mid.spec_with_ctx_set(w.with_id()),
    {
        self.with_first_id(w, Entity { id: first.id }, func)
    }

    /// Run `func` with the `with`-context set to (self, Second).
    pub fn with_second<V: Copy, F: FnOnce(World<V>) -> World<V>>(
        self,
        w: World<V>,
        second: &ComponentDesc<V>,
        func: F,
    ) -> (r: (EntityView, World<V>))
        requires
            w.wf(),
            forall|x: World<V>| x.wf() ==> #[trigger] func.requires((x,)),
            forall|x: World<V>, y: World<V>| #[trigger] func.ensures((x,), y) ==> y.wf(),
        ensures
            r.0 == self,
            r.1.wf(),
            r.1.with_id() == w.with_id(),
            exists|mid: World<V>|
                #[trigger] func.ensures(
                    (w.spec_with_ctx_set(spec_encode(self.id, second.id)),),
                    mid,
                ) && r.1 == mid.spec_with_ctx_set(w.with_id()),
    {
        self.with_second_id(w, Entity { id: second.id }, func)
    }

    /// Run `func` with the default scope set to this entity, restoring
    /// the previous scope on exit.
    pub fn run_in_scope<V: Copy, F: FnOnce(World<V>) -> World<V>>(self, w: World<V>, func: F) -> (r:
        (EntityView, World<V>))
        requires
            w.wf(),
            forall|x: World<V>| x.wf() ==> #[trigger] func.requires((x,)),
            forall|x: World<V>, y: World<V>| #[trigger] func.ensures((x,), y) ==> y.wf(),
        ensures
            r.0 == self,
            r.1.wf(),
            r.1.scope_id() == w.scope_id(),
            exists|mid: World<V>|
                #[trigger] func.ensures((w.spec_scope_set(self.id),), mid) && r.1
                    == mid.spec_scope_set(w.scope_id()),
    {
        let mut w = w;
        let prev = w.set_scope(self.id);
        let mut w2 = func(w);
        let _restored = w2.set_scope(prev);
        (self, w2)
    }

    /// Run `func` with the world scoped to this entity.
    pub fn scope<V: Copy, F: FnOnce(World<V>) -> World<V>>(self, w: World<V>, func: F) -> (r: (
        EntityView,
        World<V>,
    ))
        requires
            w.wf(),
            forall|x: World<V>| x.wf() ==> #[trigger] func.requires((x,)),
            forall|x: World<V>, y: World<V>| #[trigger] func.ensures((x,), y) ==> y.wf(),
        ensures
            r.0 == self,
            r.1.wf(),
            r.1.scope_id() == w.scope_id(),
            exists|mid: World<V>|
                #[trigger] func.ensures((w.spec_scope_set(self.id),), mid) && r.1
                    == mid.spec_scope_set(w.scope_id()),
    {
        self.run_in_scope(w, func)
    }

    /// Ensure the component (adding and default-constructing it when
    /// absent) and apply `callback` to its value in place.
    pub fn ensure_callback_mut<V: Copy, F: FnOnce(V) -> V>(
        self,
        w: &mut World<V>,
        comp: &ComponentDesc<V>,
        callback: F,
    )
        requires
            old(w).wf(),
            old(w).alive(self.id),
            comp.valid(),
            !comp.is_tag,
            crate::world::ensure_ok(*old(w), self.id, comp.id, comp.default_value),
            forall|x: V| #[trigger] callback.requires((x,)),
        ensures
            final(w).wf(),
            crate::world::frame_coord(*old(w), *final(w), self.id, comp.id),
            exists|y: V|
                #[trigger] callback.ensures(
                    (crate::world::ensure_got(*old(w), self.id, comp.id, comp.default_value),),
                    y,
                ) && final(w).region_value(self.id, comp.id) == Some(y),
    {
        let cur = w.ensure_claim(self.id, comp.id, comp.default_value);
        let ghost s1 = *w;
        let newv = callback(cur);
        w.mutate_at(self.id, comp.id, newv);
        proof {
            crate::mutate::lemma_frame_coord_trans(*old(w), s1, *w, self.id, comp.id);
            assert(cur == crate::world::ensure_got(*old(w), self.id, comp.id, comp.default_value));
            assert(callback.ensures((cur,), newv));
            assert(w.region_value(self.id, comp.id) == Some(newv));
        }
    }

    /// Ensure the pair (First, second) and apply `callback` to its value.
    pub fn ensure_first_id_mut<V: Copy, F: FnOnce(V) -> V>(
        self,
        w: &mut World<V>,
        first: &ComponentDesc<V>,
        second: Entity,
        callback: F,
    )
        requires
            old(w).wf(),
            old(w).alive(self.id),
            first.valid(),
            !first.is_tag,
            crate::world::ensure_ok(
                *old(w),
                self.id,
                spec_encode(first.id, second.id),
                first.default_value,
            ),
            forall|x: V| #[trigger] callback.requires((x,)),
        ensures
            final(w).wf(),
            crate::world::frame_coord(
                *old(w),
                *final(w),
                self.id,
                spec_encode(first.id, second.id),
            ),
            exists|y: V|
                #[trigger] callback.ensures(
                    (
                        crate::world::ensure_got(
                            *old(w),
                            self.id,
                            spec_encode(first.id, second.id),
                            first.default_value,
                        ),
                    ),
                    y,
                ) && final(w).region_value(self.id, spec_encode(first.id, second.id)) == Some(y),
    {
        let pair = encode(first.id, second.id);
        let cur = w.ensure_claim(self.id, pair, first.default_value);
        let ghost s1 = *w;
        let newv = callback(cur);
        w.mutate_at(self.id, pair, newv);
        proof {
            crate::mutate::lemma_frame_coord_trans(*old(w), s1, *w, self.id, pair);
            assert(cur == crate::world::ensure_got(
                *old(w),
                self.id,
                spec_encode(first.id, second.id),
                first.default_value,
            ));
            assert(callback.ensures((cur,), newv));
            assert(w.region_value(self.id, spec_encode(first.id, second.id)) == Some(newv));
        }
    }

    /// Ensure the pair of two components (the first gives the element
    /// type) and apply `callback` to its value.
    pub fn ensure_first_mut<V: Copy, F: FnOnce(V) -> V>(
        self,
        w: &mut World<V>,
        first: &ComponentDesc<V>,
        second: &ComponentDesc<V>,
        callback: F,
    )
        requires
            old(w).wf(),
            old(w).alive(self.id),
            first.valid(),
            !first.is_tag,
            crate::world::ensure_ok(
                *old(w),
                self.id,
                spec_encode(first.id, second.id),
                first.default_value,
            ),
            forall|x: V| #[trigger] callback.requires((x,)),
        ensures
            final(w).wf(),
            crate::world::frame_coord(
                *old(w),
                *final(w),
                self.id,
                spec_encode(first.id, second.id),
            ),
            exists|y: V|
                #[trigger] callback.ensures(
                    (
                        crate::world::ensure_got(
                            *old(w),
                            self.id,
                            spec_encode(first.id, second.id),
                            first.default_value,
                        ),
                    ),
                    y,
                ) && final(w).region_value(self.id, spec_encode(first.id, second.id)) == Some(y),
    {
        self.ensure_first_id_mut(w, first, Entity { id: second.id }, callback)
    }

    /// Ensure the pair (first, Second) (the second element gives the
    /// element type) and apply `callback` to its value.
    pub fn ensure_second_id_mut<V: Copy, F: FnOnce(V) -> V>(
        self,
        w: &mut World<V>,
        second: &ComponentDesc<V>,
        first: Entity,
        callback: F,
    )
        requires
            old(w).wf(),
            old(w).alive(self.id),
            second.valid(),
            !second.is_tag,
            crate::world::ensure_ok(
                *old(w),
                self.id,
                spec_encode(first.id, second.id),
                second.default_value,
            ),
            forall|x: V| #[trigger] callback.requires((x,)),
        ensures
            final(w).wf(),
            crate::world::frame_coord(
                *old(w),
                *final(w),
                self.id,
                spec_encode(first.id, second.id),
            ),
            exists|y: V|
                #[trigger] callback.ensures(
                    (
                        crate::world::ensure_got(
                            *old(w),
                            self.id,
                            spec_encode(first.id, second.id),
                            second.default_value,
                        ),
                    ),
                    y,
                ) && final(w).region_value(self.id, spec_encode(first.id, second.id)) == Some(y),
    {
        let pair = encode(first.id, second.id);
        let cur = w.ensure_claim(self.id, pair, second.default_value);
        let ghost s1 = *w;
        let newv = callback(cur);
        w.mutate_at(self.id, pair, newv);
        proof {
            crate::mutate::lemma_frame_coord_trans(*old(w), s1, *w, self.id, pair);
            assert(cur == crate::world::ensure_got(
                *old(w),
                self.id,
                spec_encode(first.id, second.id),
                second.default_value,
            ));
            assert(callback.ensures((cur,), newv));
            assert(w.region_value(self.id, spec_encode(first.id, second.id)) == Some(newv));
        }
    }

    /// Ensure the pair of a tag and a component (the second gives the
    /// element type) and apply `callback` to its value.
    pub fn ensure_second_mut<V: Copy, F: FnOnce(V) -> V>(
        self,
        w: &mut World<V>,
        first: &ComponentDesc<V>,
        second: &ComponentDesc<V>,
        callback: F,
    )
        requires
            old(w).wf(),
            old(w).alive(self.id),
            second.valid(),
            !second.is_tag,
            crate::world::ensure_ok(
                *old(w),
                self.id,
                spec_encode(first.id, second.id),
                second.default_value,
            ),
            forall|x: V| #[trigger] callback.requires((x,)),
        ensures
            final(w).wf(),
            crate::world::frame_coord(
                *old(w),
                *final(w),
                self.id,
                spec_encode(first.id, second.id),
            ),
            exists|y: V|
                #[trigger] callback.ensures(
                    (
                        crate::world::ensure_got(
                            *old(w),
                            self.id,
                            spec_encode(first.id, second.id),
                            second.default_value,
                        ),
                    ),
                    y,
                ) && final(w).region_value(self.id, spec_encode(first.id, second.id)) == Some(y),
    {
        self.ensure_second_id_mut(w, second, Entity { id: first.id }, callback)
    }
}

} // verus!

verus! {

/// Law: adding the hierarchy pair to an entity that is not yet anyone's
/// child makes the parent its hierarchy target: the stored pair becomes
/// the one target of the hierarchy relationship. (An entity that already
/// holds a hierarchy pair keeps it beside the new one — replacing it is
/// the engine's exclusivity transition, outside this model.)
pub proof fn lemma_child_of_sets_parent<V: Copy>(pre: World<V>, post: World<V>, e: u64, parent: u64)
    requires
        !pre.is_def(),
        crate::ids::valid_target(parent),
        !pre.has(e, spec_encode(CHILD_OF, parent)),
        crate::entity::spec_targets(pre.ent_ids(e), CHILD_OF).len() == 0,
        add_post(pre, post, e, spec_encode(CHILD_OF, parent), None::<V>),
    ensures
        crate::entity::spec_target_at(post, e, CHILD_OF, 0) == parent,
{
    crate::ids::lemma_codec_roundtrip(CHILD_OF, parent);
    let pair = spec_encode(CHILD_OF, parent);
    assert(post.ent_ids(e) == pre.ent_ids(e).push(pair));
    assert(crate::entity::spec_targets(post.ent_ids(e), CHILD_OF)
        == crate::entity::spec_targets(pre.ent_ids(e), CHILD_OF).push(parent)) by {
        assert(post.ent_ids(e).drop_last() =~= pre.ent_ids(e));
        assert(post.ent_ids(e)[post.ent_ids(e).len() - 1] == pair);
    }
}

/// Law: a conditional add with a false condition, of a pair whose
/// relationship is exclusive on this world, removes whatever target the
/// entity currently holds for that relationship — whether or not it is
/// the named target — via wildcard-target removal.
pub proof fn lemma_add_if_false_removes_any_target<V: Copy>(
    pre: World<V>,
    post: World<V>,
    e: u64,
    r: u64,
    t: u64,
    x: u64,
)
    requires
        !pre.is_def(),
        crate::ids::valid_component(r),
        crate::ids::valid_target(t),
        crate::ids::valid_target(x),
        pre.has(r, EXCLUSIVE),
        add_if_post(pre, post, e, spec_encode(r, t), false),
    ensures
        post.main_slot(e, spec_encode(r, x)) is None,
{
    crate::ids::lemma_codec_roundtrip(r, t);
    crate::ids::lemma_wildcard_target_matches(r, x);
    assert(remove_post(pre, post, e, spec_encode(r, WILDCARD)));
}

/// Law: a conditional add with a false condition, of a pair held by the
/// entity whose relationship is not exclusive, removes exactly that pair.
pub proof fn lemma_add_if_false_removes_pair<V: Copy>(
    pre: World<V>,
    post: World<V>,
    e: u64,
    r: u64,
    t: u64,
)
    requires
        !pre.is_def(),
        crate::ids::valid_component(r),
        crate::ids::valid_target(t),
        !pre.has(r, EXCLUSIVE),
        add_if_post(pre, post, e, spec_encode(r, t), false),
    ensures
        post.main_slot(e, spec_encode(r, t)) is None,
        forall|id2: u64|
            id2 != spec_encode(r, t) && !crate::ids::spec_id_matches(id2, spec_encode(r, t))
                ==> #[trigger] post.main_slot(e, id2) == pre.main_slot(e, id2),
{
    crate::ids::lemma_codec_roundtrip(r, t);
    assert(remove_post(pre, post, e, spec_encode(r, t)));
    assert(crate::ids::spec_id_matches(spec_encode(r, t), spec_encode(r, t)));
}

} // verus!
