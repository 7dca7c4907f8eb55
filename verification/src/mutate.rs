//! The deferred-mutation engine: write a value to `(entity, component)`,
//! adding the component if absent and overwriting if present, correctly in
//! both the immediate and the command-buffering regime, without ever
//! destroying a value that was never constructed and without leaking a
//! prior value.
//!
//! The decision is a pure function from four facts — is the world
//! deferred, does the component need destruction, does it have a default
//! constructor, is it already present — to one of four named strategies
//! (the two guaranteed-constructed cases share one strategy).

use vstd::prelude::*;
use crate::component::ComponentDesc;
use crate::world::Cmd;
use crate::world::World;
use crate::world::frame_coord;
use crate::world::lemma_drain_snoc;
use crate::world::lemma_immediate_queue_empty;

verus! {

/// The named write strategies.
#[derive(PartialEq, Eq, Structural, Clone, Copy, Debug)]
pub enum SetStrategy {
    /// Immediate mode: claim the cell directly with an is-new flag,
    /// destroy the prior value when not new, write, signal modification.
    DirectEmplace,
    /// Deferred, destruction needed, and a constructed prior value is
    /// guaranteed (by a default constructor or by presence): take an
    /// always-valid ensure pointer, destroy in place, write.
    EnsureDestroyWrite,
    /// Deferred, destruction needed, no default constructor, not
    /// present: claim with an is-new flag, destroy only when not new,
    /// write, signal modification explicitly. A deferred claim is always
    /// fresh staged storage, so nothing is ever destroyed here; an
    /// earlier staged value is retired at the drain, in queue order.
    EmplaceConditionalDestroy,
    /// Deferred plain data: always safe to claim and blindly overwrite;
    /// no destroy call, no presence branching.
    EnsureOverwrite,
}

/// The strategy selected for each combination of the four input facts.
pub open spec fn spec_choose_strategy(
    deferred: bool,
    needs_drop: bool,
    has_default: bool,
    present: bool,
) -> SetStrategy {
    if !deferred {
        SetStrategy::DirectEmplace
    } else if !needs_drop {
        SetStrategy::EnsureOverwrite
    } else if has_default {
        SetStrategy::EnsureDestroyWrite
    } else if present {
        SetStrategy::EnsureDestroyWrite
    } else {
        SetStrategy::EmplaceConditionalDestroy
    }
}

/// Resolve the write strategy from the four runtime facts. The hot path
/// performs at most the one presence check that `present` reports.
pub fn choose_strategy(deferred: bool, needs_drop: bool, has_default: bool, present: bool) -> (r:
    SetStrategy)
    ensures
        r == spec_choose_strategy(deferred, needs_drop, has_default, present),
        !deferred ==> r == SetStrategy::DirectEmplace,
        deferred && needs_drop && has_default ==> r == SetStrategy::EnsureDestroyWrite,
        deferred && needs_drop && !has_default && present ==> r == SetStrategy::EnsureDestroyWrite,
        deferred && needs_drop && !has_default && !present
            ==> r == SetStrategy::EmplaceConditionalDestroy,
        deferred && !needs_drop ==> r == SetStrategy::EnsureOverwrite,
{
    if !deferred {
        SetStrategy::DirectEmplace
    } else if !needs_drop {
        SetStrategy::EnsureOverwrite
    } else if has_default {
        SetStrategy::EnsureDestroyWrite
    } else if present {
        SetStrategy::EnsureDestroyWrite
    } else {
        SetStrategy::EmplaceConditionalDestroy
    }
}

/// What a set of `(e, id)` demands of the world: the entity is alive, the
/// component has element storage, and wherever the protocol destroys a
/// prior value, that value is guaranteed constructed. While deferred, the
/// presence branch without a default constructor must be able to take its
/// prior value from the coordinate's pending state.
pub open spec fn set_pre<V: Copy>(w: World<V>, e: u64, id: u64, desc: ComponentDesc<V>) -> bool {
    &&& w.alive(e)
    &&& !desc.is_tag
    &&& if w.is_def() {
        desc.needs_drop && !desc.has_default() && w.has(e, id) ==> w.pending_value(e, id) is Some
    } else {
        desc.needs_drop && w.has(e, id) ==> w.value(e, id) is Some
    }
}

/// How many construct events one set of `(e, id)` raises.
pub open spec fn set_ctor_delta<V: Copy>(
    w: World<V>,
    e: u64,
    id: u64,
    desc: ComponentDesc<V>,
) -> nat {
    if !w.is_def() {
        if desc.needs_drop {
            1
        } else if w.value(e, id) is Some {
            0
        } else {
            1
        }
    } else {
        if desc.needs_drop && (desc.has_default() || w.has(e, id)) {
            2
        } else {
            1
        }
    }
}

/// How many destruct events one set of `(e, id)` raises.
pub open spec fn set_dtor_delta<V: Copy>(
    w: World<V>,
    e: u64,
    id: u64,
    desc: ComponentDesc<V>,
) -> nat {
    if !w.is_def() {
        if desc.needs_drop && w.has(e, id) {
            1
        } else {
            0
        }
    } else {
        if desc.needs_drop && (desc.has_default() || w.has(e, id)) {
            1
        } else {
            0
        }
    }
}

/// Everything one set of `(e, id)` guarantees: the value lands in the
/// write region (main storage at once; while deferred, a fresh staged
/// command appended at the queue tail, so the coordinate's pending value
/// is the written value whatever was queued before), exactly one
/// modification signal is raised, the event deltas are exactly the
/// strategy's, and nothing else changes.
pub open spec fn set_post<V: Copy>(
    pre: World<V>,
    post: World<V>,
    e: u64,
    id: u64,
    desc: ComponentDesc<V>,
    v: V,
) -> bool {
    &&& post.wf()
    &&& post.alive(e)
    &&& frame_coord(pre, post, e, id)
    &&& post.is_def() == pre.is_def()
    &&& post.region_slot(e, id) == Some(Some(v))
    &&& (!pre.is_def() ==> post.main_slot(e, id) == Some(Some(v)) && post.queue() == pre.queue())
    &&& (pre.is_def() ==> post.main_slot(e, id) == pre.main_slot(e, id) && post.place_slot(e, id)
        == Some(Some(v)) && post.queue() == pre.queue().push(
        Cmd::PlaceCmd { entity: e, id, cell: Some(v) },
    ))
    &&& post.pending_slot(e, id) == Some(Some(v))
    &&& post.mod_count(e, id) == pre.mod_count(e, id) + 1
    &&& post.ctors(e, id) == pre.ctors(e, id) + set_ctor_delta(pre, e, id, desc)
    &&& post.dtors(e, id) == pre.dtors(e, id) + set_dtor_delta(pre, e, id, desc)
}

proof fn lemma_set_queue_post<V: Copy>(pre: World<V>, post: World<V>, e: u64, id: u64, v: V)
    requires
        post.wf(),
        post.is_def() == pre.is_def(),
        if pre.is_def() {
            post.queue() == pre.queue().push(Cmd::PlaceCmd { entity: e, id, cell: Some(v) })
                && post.main_slot(e, id) == pre.main_slot(e, id)
        } else {
            post.queue() == pre.queue() && post.main_slot(e, id) == Some(Some(v))
        },
    ensures
        post.pending_slot(e, id) == Some(Some(v)),
{
    if pre.is_def() {
        lemma_drain_snoc(
            pre.queue(),
            Cmd::PlaceCmd { entity: e, id, cell: Some(v) },
            e,
            id,
            post.main_slot(e, id),
        );
    } else {
        lemma_immediate_queue_empty(post);
        assert(post.queue().len() == 0);
    }
}

/// Write `v` to `(e, id)`, adding the component if absent and overwriting
/// if present, under the strategy the four facts select. This is the
/// untyped entry point: that `id` is the storage id whose elements `desc`
/// describes is the caller's precondition, enforced by the typed entry
/// points.
pub fn set_value<V: Copy>(w: &mut World<V>, e: u64, desc: &ComponentDesc<V>, id: u64, v: V)
    requires
        old(w).wf(),
        desc.valid(),
        set_pre(*old(w), e, id, *desc),
    ensures
        set_post(*old(w), *final(w), e, id, *desc, v),
{
    let deferred = w.is_deferred();
    let present = w.has_id(e, id);
    let strat = choose_strategy(deferred, desc.needs_drop, desc.default_value.is_some(), present);
    match strat {
        SetStrategy::DirectEmplace => {
            let is_new = w.emplace_claim(e, id);
            let ghost s1 = *w;
            if desc.needs_drop {
                if !is_new {
                    w.destroy_at(e, id);
                }
                let ghost s2 = *w;
                w.write_at(e, id, v);
                let ghost s3 = *w;
                w.mark_modified(e, id);
                proof {
                    lemma_frame_coord_of_stable(s3, *w, e, id);
                    lemma_frame_coord_trans(*old(w), s1, s2, e, id);
                    lemma_frame_coord_trans(*old(w), s2, s3, e, id);
                    lemma_frame_coord_trans(*old(w), s3, *w, e, id);
                    assert(w.queue() == old(w).queue());
                    lemma_set_queue_post(*old(w), *w, e, id, v);
                }
            } else {
                w.overwrite_at(e, id, v);
                let ghost s3 = *w;
                w.mark_modified(e, id);
                proof {
                    lemma_frame_coord_of_stable(s3, *w, e, id);
                    lemma_frame_coord_trans(*old(w), s1, s3, e, id);
                    lemma_frame_coord_trans(*old(w), s3, *w, e, id);
                    assert(w.queue() == old(w).queue());
                    lemma_set_queue_post(*old(w), *w, e, id, v);
                }
            }
        },
        SetStrategy::EnsureDestroyWrite => {
            let prior = w.ensure_claim(e, id, desc.default_value);
            let ghost s1 = *w;
            w.destroy_at(e, id);
            let ghost s2 = *w;
            w.write_at(e, id, v);
            let ghost s3 = *w;
            w.mark_modified(e, id);
            proof {
                lemma_frame_coord_of_stable(s3, *w, e, id);
                lemma_frame_coord_trans(*old(w), s1, s2, e, id);
                lemma_frame_coord_trans(*old(w), s2, s3, e, id);
                lemma_frame_coord_trans(*old(w), s3, *w, e, id);
                assert(s1.queue() == old(w).queue().push(
                    Cmd::PlaceCmd { entity: e, id, cell: Some(prior) },
                ));
                assert(s2.queue() =~= old(w).queue().push(
                    Cmd::PlaceCmd { entity: e, id, cell: None },
                ));
                assert(s3.queue() =~= old(w).queue().push(
                    Cmd::PlaceCmd { entity: e, id, cell: Some(v) },
                ));
                assert(w.queue() == s3.queue());
                lemma_set_queue_post(*old(w), *w, e, id, v);
            }
        },
        SetStrategy::EmplaceConditionalDestroy => {
            let is_new = w.emplace_claim(e, id);
            let ghost s1 = *w;
            if !is_new {
                w.destroy_at(e, id);
            }
            let ghost s2 = *w;
            w.write_at(e, id, v);
            let ghost s3 = *w;
            w.mark_modified(e, id);
            proof {
                lemma_frame_coord_of_stable(s3, *w, e, id);
                lemma_frame_coord_trans(*old(w), s1, s2, e, id);
                lemma_frame_coord_trans(*old(w), s2, s3, e, id);
                lemma_frame_coord_trans(*old(w), s3, *w, e, id);
                assert(s2.queue() == old(w).queue().push(
                    Cmd::PlaceCmd { entity: e, id, cell: None },
                ));
                assert(s3.queue() =~= old(w).queue().push(
                    Cmd::PlaceCmd { entity: e, id, cell: Some(v) },
                ));
                assert(w.queue() == s3.queue());
                lemma_set_queue_post(*old(w), *w, e, id, v);
            }
        },
        SetStrategy::EnsureOverwrite => {
            let _is_new = w.emplace_claim(e, id);
            let ghost s1 = *w;
            w.overwrite_at(e, id, v);
            let ghost s3 = *w;
            w.mark_modified(e, id);
            proof {
                lemma_frame_coord_of_stable(s3, *w, e, id);
                lemma_frame_coord_trans(*old(w), s1, s3, e, id);
                lemma_frame_coord_trans(*old(w), s3, *w, e, id);
                assert(s1.queue() == old(w).queue().push(
                    Cmd::PlaceCmd { entity: e, id, cell: None },
                ));
                assert(s3.queue() =~= old(w).queue().push(
                    Cmd::PlaceCmd { entity: e, id, cell: Some(v) },
                ));
                assert(w.queue() == s3.queue());
                lemma_set_queue_post(*old(w), *w, e, id, v);
            }
        },
    }
}


pub(crate) proof fn lemma_frame_coord_trans<V: Copy>(a: World<V>, b: World<V>, c: World<V>, e: u64, id: u64)
    requires
        frame_coord(a, b, e, id),
        frame_coord(b, c, e, id),
    ensures
        frame_coord(a, c, e, id),
{
    assert forall|e2: u64| #[trigger] c.alive(e2) == a.alive(e2) by {
        assert(b.alive(e2) == a.alive(e2));
        assert(c.alive(e2) == b.alive(e2));
    }
    assert forall|e2: u64, id2: u64|
        e2 != e implies #[trigger] c.main_slot(e2, id2) == a.main_slot(e2, id2) by {
        assert(b.main_slot(e2, id2) == a.main_slot(e2, id2));
        assert(c.main_slot(e2, id2) == b.main_slot(e2, id2));
    }
    assert forall|e2: u64, id2: u64|
        e2 != e implies #[trigger] c.place_slot(e2, id2) == a.place_slot(e2, id2) by {
        assert(b.place_slot(e2, id2) == a.place_slot(e2, id2));
        assert(c.place_slot(e2, id2) == b.place_slot(e2, id2));
    }
    assert forall|e2: u64, id2: u64|
        e2 != e implies #[trigger] c.staged_live(e2, id2) == a.staged_live(e2, id2) by {
        assert(b.staged_live(e2, id2) == a.staged_live(e2, id2));
        assert(c.staged_live(e2, id2) == b.staged_live(e2, id2));
    }
    assert forall|e2: u64, id2: u64| #[trigger] c.toggle(e2, id2) == a.toggle(e2, id2) by {
        assert(b.toggle(e2, id2) == a.toggle(e2, id2));
        assert(c.toggle(e2, id2) == b.toggle(e2, id2));
    }
    assert forall|e2: u64, id2: u64|
        e2 != e implies #[trigger] c.ctors(e2, id2) == a.ctors(e2, id2) by {
        assert(b.ctors(e2, id2) == a.ctors(e2, id2));
        assert(c.ctors(e2, id2) == b.ctors(e2, id2));
    }
    assert forall|e2: u64, id2: u64|
        e2 != e implies #[trigger] c.dtors(e2, id2) == a.dtors(e2, id2) by {
        assert(b.dtors(e2, id2) == a.dtors(e2, id2));
        assert(c.dtors(e2, id2) == b.dtors(e2, id2));
    }
    assert forall|e2: u64, id2: u64|
        e2 != e implies #[trigger] c.mod_count(e2, id2) == a.mod_count(e2, id2) by {
        assert(b.mod_count(e2, id2) == a.mod_count(e2, id2));
        assert(c.mod_count(e2, id2) == b.mod_count(e2, id2));
    }
    assert forall|id2: u64| id2 != id implies #[trigger] c.main_slot(e, id2) == a.main_slot(
        e,
        id2,
    ) by {
        assert(b.main_slot(e, id2) == a.main_slot(e, id2));
        assert(c.main_slot(e, id2) == b.main_slot(e, id2));
    }
    assert forall|id2: u64| id2 != id implies #[trigger] c.place_slot(e, id2) == a.place_slot(
        e,
        id2,
    ) by {
        assert(b.place_slot(e, id2) == a.place_slot(e, id2));
        assert(c.place_slot(e, id2) == b.place_slot(e, id2));
    }
    assert forall|id2: u64| id2 != id implies #[trigger] c.staged_live(e, id2) == a.staged_live(
        e,
        id2,
    ) by {
        assert(b.staged_live(e, id2) == a.staged_live(e, id2));
        assert(c.staged_live(e, id2) == b.staged_live(e, id2));
    }
    assert forall|id2: u64| id2 != id implies #[trigger] c.ctors(e, id2) == a.ctors(e, id2) by {
        assert(b.ctors(e, id2) == a.ctors(e, id2));
        assert(c.ctors(e, id2) == b.ctors(e, id2));
    }
    assert forall|id2: u64| id2 != id implies #[trigger] c.dtors(e, id2) == a.dtors(e, id2) by {
        assert(b.dtors(e, id2) == a.dtors(e, id2));
        assert(c.dtors(e, id2) == b.dtors(e, id2));
    }
    assert forall|id2: u64| id2 != id implies #[trigger] c.mod_count(e, id2) == a.mod_count(
        e,
        id2,
    ) by {
        assert(b.mod_count(e, id2) == a.mod_count(e, id2));
        assert(c.mod_count(e, id2) == b.mod_count(e, id2));
    }
}

proof fn lemma_frame_coord_of_stable<V: Copy>(a: World<V>, b: World<V>, e: u64, id: u64)
    requires
        forall|e2: u64| #[trigger] b.alive(e2) == a.alive(e2),
        forall|e2: u64, id2: u64| #[trigger] b.main_slot(e2, id2) == a.main_slot(e2, id2),
        forall|e2: u64, id2: u64| #[trigger] b.toggle(e2, id2) == a.toggle(e2, id2),
        forall|e2: u64, id2: u64| #[trigger] b.place_slot(e2, id2) == a.place_slot(e2, id2),
        forall|e2: u64, id2: u64| #[trigger] b.staged_live(e2, id2) == a.staged_live(e2, id2),
        forall|e2: u64, id2: u64| #[trigger] b.ctors(e2, id2) == a.ctors(e2, id2),
        forall|e2: u64, id2: u64| #[trigger] b.dtors(e2, id2) == a.dtors(e2, id2),
        forall|e2: u64, id2: u64|
            !(e2 == e && id2 == id) ==> #[trigger] b.mod_count(e2, id2) == a.mod_count(e2, id2),
        b.is_def() == a.is_def(),
        b.with_id() == a.with_id(),
        b.scope_id() == a.scope_id(),
    ensures
        frame_coord(a, b, e, id),
{
}

/// Law: setting twice in direct mode leaves exactly the second value
/// stored, raises one modification signal per call, and destroys the
/// first value exactly once — no double destruction.
pub proof fn lemma_set_twice_direct<V: Copy>(
    w0: World<V>,
    w1: World<V>,
    w2: World<V>,
    e: u64,
    id: u64,
    desc: ComponentDesc<V>,
    v1: V,
    v2: V,
)
    requires
        !w0.is_def(),
        set_post(w0, w1, e, id, desc, v1),
        set_post(w1, w2, e, id, desc, v2),
    ensures
        w2.value(e, id) == Some(v2),
        w2.mod_count(e, id) == w0.mod_count(e, id) + 2,
        desc.needs_drop ==> w2.dtors(e, id) == w0.dtors(e, id) + (if w0.has(e, id) {
            1nat
        } else {
            0nat
        }) + 1,
        desc.needs_drop ==> w2.ctors(e, id) == w0.ctors(e, id) + 2,
{
}

/// Law: setting a component that needs destruction and has no default
/// constructor, while deferred and with the component absent, destroys
/// nothing at all — unconstructed memory is never destructed — and
/// constructs exactly the one new value, into a fresh staged cell whose
/// drain leaves exactly that value behind.
pub proof fn lemma_deferred_set_absent_never_destructs<V: Copy>(
    w0: World<V>,
    w1: World<V>,
    e: u64,
    id: u64,
    desc: ComponentDesc<V>,
    v: V,
)
    requires
        w0.is_def(),
        desc.needs_drop,
        !desc.has_default(),
        !w0.has(e, id),
        set_post(w0, w1, e, id, desc, v),
    ensures
        w1.dtors(e, id) == w0.dtors(e, id),
        w1.ctors(e, id) == w0.ctors(e, id) + 1,
        w1.place_slot(e, id) == Some(Some(v)),
        w1.pending_slot(e, id) == Some(Some(v)),
{
}

/// Law: a deferred set followed by the drain leaves exactly the written
/// value stored, whatever else was queued before the set. The middle
/// world is the state the set left behind; the final world is the drain's
/// result, the fold of the middle world's queue over its storage.
pub proof fn lemma_deferred_set_then_drain<V: Copy>(
    w0: World<V>,
    w1: World<V>,
    w2: World<V>,
    e: u64,
    id: u64,
    desc: ComponentDesc<V>,
    v: V,
)
    requires
        w0.is_def(),
        set_post(w0, w1, e, id, desc, v),
        forall|e2: u64, id2: u64| #[trigger]
            w2.main_slot(e2, id2) == crate::world::drain_slot(
                w1.queue(),
                e2,
                id2,
                w1.main_slot(e2, id2),
            ),
    ensures
        w2.main_slot(e, id) == Some(Some(v)),
        w2.value(e, id) == Some(v),
{
    assert(w2.main_slot(e, id) == w1.pending_slot(e, id));
}

/// Law: in a well-formed world, construct and destruct counts balance at
/// every coordinate: every construct event is matched by a destruct event
/// or by a value still live in main storage or in the staged queue.
pub proof fn lemma_counts_balanced<V: Copy>(w: World<V>, e: u64, id: u64)
    requires
        w.wf(),
    ensures
        w.ctors(e, id) == w.dtors(e, id) + w.main_live(e, id) + w.staged_live(e, id),
{
}

} // verus!
