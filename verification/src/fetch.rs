//! The typed multi-component fetch engine: resolve an ordered list of
//! required/optional, mutable/immutable slot descriptors against an
//! entity's current storage location, under a strict or a lenient absence
//! policy.
//!
//! Processing order is the declared slot order, never reordered; it is
//! also the order of the result. A slot resolves through the
//! locate / column-index / column-read contract of the storage engine. A
//! zero-sized tag component has no element storage: requesting one is an
//! invalid-parameter failure in strict mode and an absent slot in lenient
//! mode. An entity that is present but whose cell was never constructed
//! reads as absent: absence and presence are never conflated with a
//! default value.

use vstd::prelude::*;
use crate::component::ComponentDesc;
use crate::world::World;

verus! {

/// One requested slot: a component id, the required/optional policy, the
/// mutable/immutable access mode, and whether the component is a
/// zero-sized tag.
#[derive(Clone, Copy)]
pub struct SlotDesc {
    pub id: u64,
    pub required: bool,
    pub mutable: bool,
    pub is_tag: bool,
}

impl SlotDesc {
    /// The slot requesting a component under the given policy.
    pub fn from_component<V: Copy>(desc: &ComponentDesc<V>, required: bool, mutable: bool) -> (r:
        SlotDesc)
        ensures
            r.id == desc.id,
            r.required == required,
            r.mutable == mutable,
            r.is_tag == desc.is_tag,
    {
        SlotDesc { id: desc.id, required, mutable, is_tag: desc.is_tag }
    }
}

/// A strict fetch failure, identifying the offending slot; a missing
/// required component is reported together with the full requested
/// signature.
pub enum FetchError {
    /// A zero-sized tag component was requested through typed storage.
    InvalidParameter { slot_index: usize },
    /// A required component was missing.
    OperationFailed { slot_index: usize, missing_id: u64, signature: Vec<u64> },
}

/// Whether a slot resolves to a constructed element for `e`.
pub open spec fn spec_found<V: Copy>(w: World<V>, e: u64, s: SlotDesc) -> bool {
    !s.is_tag && w.value(e, s.id) is Some
}

/// What a lenient fetch yields for one slot: the element value, or the
/// absent marker.
pub open spec fn spec_slot_cell<V: Copy>(w: World<V>, e: u64, s: SlotDesc) -> Option<V> {
    if s.is_tag {
        None
    } else {
        w.value(e, s.id)
    }
}

/// Whether every required slot resolves (optional slots do not count).
pub open spec fn all_required_found<V: Copy>(w: World<V>, e: u64, slots: Seq<SlotDesc>) -> bool {
    forall|i: int| 0 <= i < slots.len() && (#[trigger] slots[i]).required ==> spec_found(w, e, slots[i])
}

/// Whether a slot makes a strict fetch abort: a tag request, or a
/// required component that does not resolve.
pub open spec fn slot_bad<V: Copy>(w: World<V>, e: u64, s: SlotDesc) -> bool {
    s.is_tag || (s.required && !spec_found(w, e, s))
}

/// The first offending slot at or after `i`, in declared order.
pub open spec fn first_bad_from<V: Copy>(
    w: World<V>,
    e: u64,
    slots: Seq<SlotDesc>,
    i: int,
) -> Option<int>
    decreases slots.len() - i,
{
    if i < 0 || i >= slots.len() {
        None
    } else if slot_bad(w, e, slots[i]) {
        Some(i)
    } else {
        first_bad_from(w, e, slots, i + 1)
    }
}

proof fn lemma_first_bad_skip<V: Copy>(w: World<V>, e: u64, slots: Seq<SlotDesc>, j: int, i: int)
    requires
        0 <= j <= i <= slots.len(),
        forall|k: int| j <= k < i ==> !slot_bad(w, e, #[trigger] slots[k]),
    ensures
        first_bad_from(w, e, slots, j) == first_bad_from(w, e, slots, i),
    decreases i - j,
{
    if j < i {
        assert(!slot_bad(w, e, slots[j]));
        lemma_first_bad_skip(w, e, slots, j + 1, i);
    }
}

/// The packaged result of a lenient multi-fetch: one resolved cell per
/// slot, in declared order, plus the all-required-present flag the caller
/// must check before trusting any required slot.
pub struct ComponentsData<V> {
    pub values: Vec<Option<V>>,
    pub has_all_components: bool,
}

impl<V: Copy> ComponentsData<V> {
    /// Resolve all slots leniently: an absent slot (or a tag request)
    /// yields the absent marker for that slot only, and clears the
    /// all-required-present flag when the slot was required.
    pub fn new(w: &World<V>, e: u64, slots: &Vec<SlotDesc>) -> (r: ComponentsData<V>)
        requires
            w.wf(),
        ensures
            r.values@.len() == slots@.len(),
            forall|i: int|
                0 <= i < slots@.len() ==> r.values@[i] == spec_slot_cell(*w, e, #[trigger] slots@[i]),
            r.has_all_components == all_required_found(*w, e, slots@),
    {
        let rec = w.locate(e);
        let mut values: Vec<Option<V>> = Vec::new();
        let mut has_all = true;
        let mut i: usize = 0;
        while i < slots.len()
            invariant
                w.wf(),
                i <= slots@.len(),
                values@.len() == i,
                rec is Some <==> w.alive(e),
                rec matches Some(rr) ==> w.rec_current(rr) && w.rec_entity(rr) == e,
                forall|k: int|
                    0 <= k < i ==> values@[k] == spec_slot_cell(*w, e, #[trigger] slots@[k]),
                has_all == (forall|k: int|
                    0 <= k < i && (#[trigger] slots@[k]).required ==> spec_found(*w, e, slots@[k])),
            decreases slots@.len() - i,
        {
            let s = slots[i];
            let cell: Option<V> = if s.is_tag {
                None
            } else {
                match &rec {
                    None => None,
                    Some(rr) => {
                        match w.column_index(rr, s.id) {
                            None => None,
                            Some(c) => {
                                match w.column_get(rr, c) {
                                    Some(cell) => cell,
                                    None => None,
                                }
                            },
                        }
                    },
                }
            };
            proof {
                if rec is None {
                    crate::world::lemma_not_alive_no_comp(*w, e);
                }
                assert(cell == spec_slot_cell(*w, e, slots@[i as int]));
            }
            if s.required && cell.is_none() {
                has_all = false;
            }
            values.push(cell);
            i += 1;
        }
        ComponentsData { values, has_all_components: has_all }
    }

    /// The resolved cells, in declared slot order.
    pub fn get_tuple(&self) -> (r: Vec<Option<V>>)
        ensures
            r@ == self.values@,
    {
        let mut out: Vec<Option<V>> = Vec::new();
        let mut i: usize = 0;
        while i < self.values.len()
            invariant
                i <= self.values@.len(),
                out@ == self.values@.take(i as int),
            decreases self.values@.len() - i,
        {
            out.push(self.values[i]);
            proof {
                assert(self.values@.take(i + 1 as int) =~= self.values@.take(i as int).push(
                    self.values@[i as int],
                ));
            }
            i += 1;
        }
        proof {
            assert(self.values@.take(self.values@.len() as int) =~= self.values@);
        }
        out
    }

    /// The all-required-present flag.
    pub fn has_all_components(&self) -> (r: bool)
        ensures
            r == self.has_all_components,
    {
        self.has_all_components
    }
}

/// Lenient multi-fetch: resolve every slot and return a structured result
/// plus the all-required-present flag.
pub fn fetch_lenient<V: Copy>(w: &World<V>, e: u64, slots: &Vec<SlotDesc>) -> (r: ComponentsData<
    V,
>)
    requires
        w.wf(),
    ensures
        r.values@.len() == slots@.len(),
        forall|i: int|
            0 <= i < slots@.len() ==> r.values@[i] == spec_slot_cell(*w, e, #[trigger] slots@[i]),
        r.has_all_components == all_required_found(*w, e, slots@),
{
    ComponentsData::new(w, e, slots)
}

/// Strict multi-fetch: abort on the first offending slot in declared
/// order, without resolving the remaining slots; a missing required
/// component is reported with its id and the full requested signature.
pub fn fetch_strict<V: Copy>(w: &World<V>, e: u64, slots: &Vec<SlotDesc>) -> (r: Result<
    Vec<Option<V>>,
    FetchError,
>)
    requires
        w.wf(),
    ensures
        match r {
            Ok(vals) => {
                &&& first_bad_from(*w, e, slots@, 0) is None
                &&& vals@.len() == slots@.len()
                &&& forall|i: int|
                    0 <= i < slots@.len() ==> vals@[i] == spec_slot_cell(
                        *w,
                        e,
                        #[trigger] slots@[i],
                    )
                &&& all_required_found(*w, e, slots@)
            },
            Err(FetchError::InvalidParameter { slot_index }) => {
                &&& first_bad_from(*w, e, slots@, 0) == Some(slot_index as int)
                &&& slots@[slot_index as int].is_tag
            },
            Err(FetchError::OperationFailed { slot_index, missing_id, signature }) => {
                &&& first_bad_from(*w, e, slots@, 0) == Some(slot_index as int)
                &&& !slots@[slot_index as int].is_tag
                &&& slots@[slot_index as int].required
                &&& !spec_found(*w, e, slots@[slot_index as int])
                &&& missing_id == slots@[slot_index as int].id
                &&& signature@.len() == slots@.len()
                &&& forall|i: int|
                    0 <= i < slots@.len() ==> signature@[i] == (#[trigger] slots@[i]).id
            },
        },
{
    let rec = w.locate(e);
    let mut values: Vec<Option<V>> = Vec::new();
    let mut i: usize = 0;
    while i < slots.len()
        invariant
            w.wf(),
            i <= slots@.len(),
            values@.len() == i,
            rec is Some <==> w.alive(e),
            rec matches Some(rr) ==> w.rec_current(rr) && w.rec_entity(rr) == e,
            forall|k: int| 0 <= k < i ==> !slot_bad(*w, e, #[trigger] slots@[k]),
            forall|k: int|
                0 <= k < i ==> values@[k] == spec_slot_cell(*w, e, #[trigger] slots@[k]),
        decreases slots@.len() - i,
    {
        let s = slots[i];
        if s.is_tag {
            proof {
                lemma_first_bad_skip(*w, e, slots@, 0, i as int);
            }
            return Err(FetchError::InvalidParameter { slot_index: i });
        }
        let cell: Option<V> = match &rec {
            None => None,
            Some(rr) => {
                match w.column_index(rr, s.id) {
                    None => None,
                    Some(c) => {
                        match w.column_get(rr, c) {
                            Some(cell) => cell,
                            None => None,
                        }
                    },
                }
            },
        };
        proof {
            if rec is None {
                crate::world::lemma_not_alive_no_comp(*w, e);
            }
            assert(cell == spec_slot_cell(*w, e, slots@[i as int]));
        }
        if s.required && cell.is_none() {
            let mut signature: Vec<u64> = Vec::new();
            let mut k: usize = 0;
            while k < slots.len()
                invariant
                    k <= slots@.len(),
                    signature@.len() == k,
                    forall|m: int| 0 <= m < k ==> signature@[m] == (#[trigger] slots@[m]).id,
                decreases slots@.len() - k,
            {
                signature.push(slots[k].id);
                k += 1;
            }
            proof {
                lemma_first_bad_skip(*w, e, slots@, 0, i as int);
            }
            return Err(
                FetchError::OperationFailed { slot_index: i, missing_id: s.id, signature },
            );
        }
        values.push(cell);
        i += 1;
    }
    proof {
        lemma_first_bad_skip(*w, e, slots@, 0, slots@.len() as int);
    }
    Ok(values)
}

/// Whether every slot of a request is immutable.
pub open spec fn spec_all_immutable(slots: Seq<SlotDesc>) -> bool {
    forall|i: int| 0 <= i < slots.len() ==> !(#[trigger] slots[i]).mutable
}

/// True when no slot of the request asks for mutable access.
pub fn all_immutable(slots: &Vec<SlotDesc>) -> (r: bool)
    ensures
        r == spec_all_immutable(slots@),
{
    let mut i: usize = 0;
    while i < slots.len()
        invariant
            i <= slots@.len(),
            forall|k: int| 0 <= k < i ==> !(#[trigger] slots@[k]).mutable,
        decreases slots@.len() - i,
    {
        if slots[i].mutable {
            return false;
        }
        i += 1;
    }
    true
}

/// Carrier for the per-slot result forms.
pub struct Wrapper<T>(pub T);

/// How one resolved slot turns into its requested form: a required slot
/// yields the element itself (absence excluded by precondition), an
/// optional slot yields the element or the absent marker.
pub trait TupleForm<T, U>: Sized {
    type Tuple;

    spec fn is_option() -> bool;

    spec fn spec_form(v: Option<U>) -> Self::Tuple;

    fn return_type_for_tuple(v: Option<U>) -> (r: Self::Tuple)
        requires
            Self::is_option() || v is Some,
        ensures
            r == Self::spec_form(v),
    ;
}

impl<T: Copy> TupleForm<T, T> for Wrapper<T> {
    type Tuple = T;

    open spec fn is_option() -> bool {
        false
    }

    open spec fn spec_form(v: Option<T>) -> T {
        match v {
            Some(x) => x,
            None => vstd::pervasive::arbitrary(),
        }
    }

    fn return_type_for_tuple(v: Option<T>) -> (r: T) {
        match v {
            Some(x) => x,
            None => {
                proof {
                    assert(false);
                }
                loop
                    invariant
                        false,
                    decreases 0int,
                {
                }
            },
        }
    }
}

impl<T: Copy> TupleForm<Option<T>, T> for Wrapper<T> {
    type Tuple = Option<T>;

    open spec fn is_option() -> bool {
        true
    }

    open spec fn spec_form(v: Option<T>) -> Option<T> {
        v
    }

    fn return_type_for_tuple(v: Option<T>) -> (r: Option<T>) {
        v
    }
}

/// Law: a strict fetch of required, non-tag slots over an entity that
/// lacks them all aborts at the first slot, and the lenient policy
/// reports not-all-present for the same request.
pub proof fn lemma_strict_fetch_of_missing_fails<V: Copy>(w: World<V>, e: u64, slots: Seq<SlotDesc>)
    requires
        0 < slots.len(),
        forall|i: int| 0 <= i < slots.len() ==> (#[trigger] slots[i]).required && !slots[i].is_tag,
        forall|i: int| 0 <= i < slots.len() ==> w.value(e, (#[trigger] slots[i]).id) is None,
    ensures
        first_bad_from(w, e, slots, 0) == Some(0int),
        !all_required_found(w, e, slots),
{
    assert(slot_bad(w, e, slots[0]));
    assert(!spec_found(w, e, slots[0]));
}

/// Law: the all-required-present flag ignores optional slots: it holds
/// exactly when every required slot resolves, whatever the optional
/// slots do.
pub proof fn lemma_all_present_ignores_optional<V: Copy>(w: World<V>, e: u64, slots: Seq<SlotDesc>)
    requires
        forall|i: int|
            0 <= i < slots.len() && (#[trigger] slots[i]).required ==> spec_found(w, e, slots[i]),
    ensures
        all_required_found(w, e, slots),
{
}

} // verus!
