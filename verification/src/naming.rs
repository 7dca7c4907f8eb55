//! Entity names and hierarchical paths. Names live in a registry of their
//! own beside the storage engine; a hierarchical path is the names of the
//! ancestor chain — following the hierarchy relationship up to a given
//! parent, or to the root — joined by a separator, with an initial
//! separator prefixed to absolute paths.

use vstd::prelude::*;
use vstd::string::StringExecFns;
use crate::entity::Entity;
use crate::entity::spec_target_at;
use crate::entity_view::EntityView;
use crate::ids::CHILD_OF;
use crate::world::World;
use crate::world::assoc;
use crate::world::distinct_keys;

verus! {

/// The names of entities: at most one name per entity id.
pub struct NameRegistry {
    ids: Vec<u64>,
    names: Vec<String>,
}

impl NameRegistry {
    /// Registry well-formedness: one binding per entity.
    pub closed spec fn wf(self) -> bool {
        &&& self.ids@.len() == self.names@.len()
        &&& distinct_keys(self.ids@)
    }

    /// The name of `e`: the empty sequence when unnamed.
    pub closed spec fn name_of(self, e: u64) -> Seq<char> {
        match assoc(self.ids@, self.names@, e) {
            Some(s) => s@,
            None => Seq::empty(),
        }
    }

    /// An empty registry.
    pub fn new() -> (r: NameRegistry)
        ensures
            r.wf(),
            forall|e: u64| #[trigger] r.name_of(e) == Seq::<char>::empty(),
    {
        NameRegistry { ids: Vec::new(), names: Vec::new() }
    }

    fn find(&self, e: u64) -> (r: Option<usize>)
        ensures
            match r {
                Some(j) => j < self.ids@.len() && self.ids@[j as int] == e,
                None => !self.ids@.contains(e),
            },
    {
        let mut i: usize = 0;
        while i < self.ids.len()
            invariant
                i <= self.ids@.len(),
                forall|k: int| 0 <= k < i ==> self.ids@[k] != e,
            decreases self.ids@.len() - i,
        {
            if self.ids[i] == e {
                return Some(i);
            }
            i += 1;
        }
        assert(!self.ids@.contains(e));
        None
    }

    /// Name entity `e`, replacing any previous name.
    pub fn set_name(&mut self, e: u64, name: &str)
        requires
            old(self).wf(),
        ensures
            final(self).wf(),
            final(self).name_of(e) == name@,
            forall|e2: u64| e2 != e ==> #[trigger] final(self).name_of(e2) == old(self).name_of(e2),
    {
        let s = <String as StringExecFns>::from_str(name);
        match self.find(e) {
            Some(j) => {
                proof {
                    crate::world::lemma_assoc_update(self.ids@, self.names@, j as int, s);
                }
                self.names[j] = s;
            },
            None => {
                proof {
                    crate::world::lemma_assoc_push(self.ids@, self.names@, e, s);
                    let keys = self.ids@;
                    assert forall|x: int, y: int|
                        0 <= x < y < keys.push(e).len() implies keys.push(e)[x] != keys.push(
                        e,
                    )[y] by {
                        if y == keys.len() as int {
                            assert(keys.push(e)[x] == keys[x]);
                            assert(keys[x] != e) by {
                                if keys[x] == e {
                                    assert(keys.contains(e));
                                }
                            }
                        }
                    }
                }
                self.ids.push(e);
                self.names.push(s);
            },
        }
    }

    /// Remove the name of `e`, if any.
    pub fn remove_name(&mut self, e: u64)
        requires
            old(self).wf(),
        ensures
            final(self).wf(),
            final(self).name_of(e) == Seq::<char>::empty(),
            forall|e2: u64| e2 != e ==> #[trigger] final(self).name_of(e2) == old(self).name_of(e2),
    {
        match self.find(e) {
            Some(j) => {
                proof {
                    crate::world::lemma_assoc_remove(self.ids@, self.names@, j as int);
                    let keys = self.ids@;
                    assert forall|x: int, y: int|
                        0 <= x < y < keys.remove(j as int).len() implies keys.remove(
                        j as int,
                    )[x] != keys.remove(j as int)[y] by {
                        let xx = if x < j as int {
                            x
                        } else {
                            x + 1
                        };
                        let yy = if y < j as int {
                            y
                        } else {
                            y + 1
                        };
                        assert(keys.remove(j as int)[x] == keys[xx]);
                        assert(keys.remove(j as int)[y] == keys[yy]);
                    }
                }
                self.ids.remove(j);
                self.names.remove(j);
            },
            None => {
                proof {
                    crate::world::lemma_assoc_some_iff(self.ids@, self.names@, e);
                }
            },
        }
    }

    /// Read the name of `e` (empty when unnamed).
    pub fn get_name(&self, e: u64) -> (r: String)
        requires
            self.wf(),
        ensures
            r@ == self.name_of(e),
    {
        match self.find(e) {
            Some(j) => {
                proof {
                    crate::world::lemma_assoc_at(self.ids@, self.names@, j as int);
                }
                self.names[j].clone()
            },
            None => {
                proof {
                    crate::world::lemma_assoc_some_iff(self.ids@, self.names@, e);
                }
                String::new()
            },
        }
    }
}

/// The hierarchical path of `e` up to (exclusive) `parent`: the names of
/// the ancestor chain, oldest first, joined by `sep`. The walk follows
/// the first target of the hierarchy relationship and is bounded by
/// `fuel`.
pub open spec fn spec_path<V: Copy>(
    w: World<V>,
    reg: NameRegistry,
    e: u64,
    parent: u64,
    sep: Seq<char>,
    fuel: nat,
) -> Seq<char>
    decreases fuel,
{
    let p = spec_target_at(w, e, CHILD_OF, 0);
    if fuel == 0 || p == 0 || p == parent {
        reg.name_of(e)
    } else {
        spec_path(w, reg, p, parent, sep, (fuel - 1) as nat) + sep + reg.name_of(e)
    }
}

fn path_rec<V: Copy>(
    w: &World<V>,
    reg: &NameRegistry,
    e: u64,
    parent: u64,
    sep: &str,
    fuel: usize,
) -> (r: String)
    requires
        w.wf(),
        reg.wf(),
    ensures
        r@ == spec_path(*w, *reg, e, parent, sep@, fuel as nat),
    decreases fuel,
{
    let ent = Entity { id: e };
    let p = ent.get_target_from_entity(w, CHILD_OF, 0);
    if fuel == 0 || p.id == 0 || p.id == parent {
        reg.get_name(e)
    } else {
        let mut s = path_rec(w, reg, p.id, parent, sep, fuel - 1);
        s.append(sep);
        let own = reg.get_name(e);
        s.append(own.as_str());
        s
    }
}

impl Entity {
    /// The hierarchical path of the entity relative to `parent`, with the
    /// given separator between names and the initial separator prefixed
    /// when the path is absolute (`parent` 0). The null entity has no
    /// path.
    pub fn get_hierachy_path_from_parent_id<V: Copy>(
        &self,
        w: &World<V>,
        reg: &NameRegistry,
        parent: u64,
        sep: &str,
        init_sep: &str,
    ) -> (r: Option<String>)
        requires
            w.wf(),
            reg.wf(),
        ensures
            self.id == 0 <==> r is None,
            r matches Some(s) ==> s@ == (if parent == 0 {
                init_sep@
            } else {
                Seq::<char>::empty()
            }) + spec_path(*w, *reg, self.id, parent, sep@, w.spec_entities().len() as nat),
    {
        if self.id == 0 {
            return None;
        }
        let fuel = w.entity_count();
        let tail = path_rec(w, reg, self.id, parent, sep, fuel);
        if parent == 0 {
            let mut s = <String as StringExecFns>::from_str(init_sep);
            s.append(tail.as_str());
            Some(s)
        } else {
            proof {
                assert(Seq::<char>::empty() + tail@ =~= tail@);
            }
            Some(tail)
        }
    }

    /// The absolute hierarchical path of the entity, with the given
    /// separators.
    pub fn get_hierachy_path<V: Copy>(
        &self,
        w: &World<V>,
        reg: &NameRegistry,
        sep: &str,
        init_sep: &str,
    ) -> (r: Option<String>)
        requires
            w.wf(),
            reg.wf(),
        ensures
            self.id == 0 <==> r is None,
            r matches Some(s) ==> s@ == init_sep@ + spec_path(
                *w,
                *reg,
                self.id,
                0,
                sep@,
                w.spec_entities().len() as nat,
            ),
    {
        self.get_hierachy_path_from_parent_id(w, reg, 0, sep, init_sep)
    }

    /// The hierarchical path relative to `parent` with the default
    /// separator.
    pub fn get_hierachy_path_from_parent_id_default<V: Copy>(
        &self,
        w: &World<V>,
        reg: &NameRegistry,
        parent: u64,
    ) -> (r: Option<String>)
        requires
            w.wf(),
            reg.wf(),
        ensures
            self.id == 0 <==> r is None,
            r matches Some(s) ==> s@ == (if parent == 0 {
                "::"@
            } else {
                Seq::<char>::empty()
            }) + spec_path(*w, *reg, self.id, parent, "::"@, w.spec_entities().len() as nat),
    {
        self.get_hierachy_path_from_parent_id(w, reg, parent, "::", "::")
    }

    /// The absolute hierarchical path with the default separator.
    pub fn get_hierachy_path_default<V: Copy>(&self, w: &World<V>, reg: &NameRegistry) -> (r:
        Option<String>)
        requires
            w.wf(),
            reg.wf(),
        ensures
            self.id == 0 <==> r is None,
            r matches Some(s) ==> s@ == "::"@ + spec_path(
                *w,
                *reg,
                self.id,
                0,
                "::"@,
                w.spec_entities().len() as nat,
            ),
    {
        self.get_hierachy_path_from_parent_id_default(w, reg, 0)
    }

    /// The hierarchical path relative to the entity of a component.
    pub fn get_hierachy_path_from_parent_type<V: Copy>(
        &self,
        w: &World<V>,
        reg: &NameRegistry,
        parent: &crate::component::ComponentDesc<V>,
        sep: &str,
        init_sep: &str,
    ) -> (r: Option<String>)
        requires
            w.wf(),
            reg.wf(),
        ensures
            self.id == 0 <==> r is None,
            r matches Some(s) ==> s@ == (if parent.id == 0 {
                init_sep@
            } else {
                Seq::<char>::empty()
            }) + spec_path(*w, *reg, self.id, parent.id, sep@, w.spec_entities().len() as nat),
    {
        self.get_hierachy_path_from_parent_id(w, reg, parent.id, sep, init_sep)
    }

    /// The hierarchical path relative to the entity of a component, with
    /// the default separator.
    pub fn get_hierachy_path_from_parent_type_default<V: Copy>(
        &self,
        w: &World<V>,
        reg: &NameRegistry,
        parent: &crate::component::ComponentDesc<V>,
    ) -> (r: Option<String>)
        requires
            w.wf(),
            reg.wf(),
        ensures
            self.id == 0 <==> r is None,
            r matches Some(s) ==> s@ == (if parent.id == 0 {
                "::"@
            } else {
                Seq::<char>::empty()
            }) + spec_path(*w, *reg, self.id, parent.id, "::"@, w.spec_entities().len() as nat),
    {
        self.get_hierachy_path_from_parent_id_default(w, reg, parent.id)
    }
}

impl EntityView {
    /// Name this entity in the registry.
    pub fn set_name(self, reg: &mut NameRegistry, name: &str) -> (r: EntityView)
        requires
            old(reg).wf(),
        ensures
            r == self,
            final(reg).wf(),
            final(reg).name_of(self.id) == name@,
            forall|e2: u64|
                e2 != self.id ==> #[trigger] final(reg).name_of(e2) == old(reg).name_of(e2),
    {
        reg.set_name(self.id, name);
        self
    }

    /// Remove this entity's name from the registry.
    pub fn remove_name(self, reg: &mut NameRegistry) -> (r: EntityView)
        requires
            old(reg).wf(),
        ensures
            r == self,
            final(reg).wf(),
            final(reg).name_of(self.id) == Seq::<char>::empty(),
            forall|e2: u64|
                e2 != self.id ==> #[trigger] final(reg).name_of(e2) == old(reg).name_of(e2),
    {
        reg.remove_name(self.id);
        self
    }
}

impl Entity {
    /// Read this entity's name (empty when unnamed).
    pub fn get_name(&self, reg: &NameRegistry) -> (r: String)
        requires
            reg.wf(),
        ensures
            r@ == reg.name_of(self.id),
    {
        reg.get_name(self.id)
    }
}

} // verus!
