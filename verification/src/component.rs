//! Component descriptors: the per-component facts the storage access layer
//! reads — the component's id, whether it is a zero-sized tag, whether it is
//! an enum component, whether its values own resources (and so need
//! destruction), and its default value when it has a default constructor.
//!
//! The value type of every component in a world is one type parameter `V`;
//! a test or an application picks `V` (typically an enum over its concrete
//! component types). A descriptor with `default_value == None` models a
//! component without a default constructor.

use vstd::prelude::*;
use crate::ids::valid_component;
use crate::ids::valid_target;

verus! {

/// Everything the access layer knows about one component.
pub struct ComponentDesc<V> {
    /// The component's plain id; valid as the relationship part of a pair.
    pub id: u64,
    /// True for a zero-sized tag: no element storage exists for it.
    pub is_tag: bool,
    /// True for an enum component, whose instances live behind
    /// (component, variant) pairs.
    pub is_enum: bool,
    /// True when values of the component own resources and must be
    /// destroyed before their storage is released or overwritten.
    pub needs_drop: bool,
    /// The default-constructed value, or `None` when the component has no
    /// default constructor.
    pub default_value: Option<V>,
}

impl<V> ComponentDesc<V> {
    /// A well-formed descriptor: the id is a valid plain component id, and
    /// a tag has neither storage behaviour nor a default value.
    pub open spec fn valid(self) -> bool {
        &&& valid_component(self.id)
        &&& self.is_tag ==> !self.needs_drop && self.default_value is None
    }

    /// Whether the component has a default constructor.
    pub open spec fn has_default(self) -> bool {
        self.default_value is Some
    }
}

/// An enum component together with the entity ids of its constants. The
/// variant at index `i` of the enum is represented by the entity
/// `variants[i]`.
pub struct EnumDesc {
    /// The enum component's own id.
    pub id: u64,
    /// The ids of the enum's constants, in declaration order.
    pub variants: Vec<u64>,
}

impl EnumDesc {
    /// A well-formed enum descriptor: a valid component id, and every
    /// constant a valid (nonzero) target id.
    pub open spec fn valid(self) -> bool {
        &&& valid_component(self.id)
        &&& forall|i: int| 0 <= i < self.variants@.len() ==> valid_target(#[trigger] self.variants@[i])
    }

    /// The id of the constant for the variant at `index`.
    pub fn get_id_variant(&self, index: usize) -> (r: u64)
        requires
            index < self.variants@.len(),
        ensures
            r == self.variants@[index as int],
    {
        self.variants[index]
    }
}

/// The error taxonomy of the access layer.
#[derive(PartialEq, Eq, Structural, Clone, Copy, Debug)]
pub enum EcsError {
    /// A caller bug surfaced immediately: a malformed id, or a zero-sized
    /// component requested through typed storage.
    InvalidParameter,
    /// A required component was missing in a strict fetch.
    OperationFailed,
    /// A resolver contract was violated, such as a stale record where a
    /// current one was asserted.
    InternalError,
}

} // verus!
