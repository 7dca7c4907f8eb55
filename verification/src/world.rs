//! The storage-engine model: entities with ordered component columns, a
//! deferred command queue, modification signals, and construct/destruct
//! event logs.
//!
//! A world owns one storage row per live entity: an ordered list of
//! component ids paired with cells. A cell is `Some(v)` when a value has
//! been constructed in it and `None` while the storage exists but holds no
//! constructed value (a column cell whose memory was never written). Every
//! operation that constructs or destroys a value appends an event to the
//! matching log; well-formedness ties the logs to the constructed cells, so a
//! balanced count is an invariant, not an accident.
//!
//! In deferred mode, structural mutations are queued as commands instead
//! of applied; `defer_end` drains the queue in order (which is per-entity
//! FIFO order) against the main storage.

use vstd::prelude::*;
use crate::ids::WILDCARD;
use crate::ids::spec_id_matches;
use crate::ids::id_matches;

verus! {

/// One queued structural mutation.
pub enum Cmd<V> {
    /// Add `id` to `entity`; when the add turns out to be new, the cell
    /// starts as `init` (constructed only then, at apply time).
    AddCmd { entity: u64, id: u64, init: Option<V> },
    /// Remove every id of `entity` matching `pattern`.
    RemoveCmd { entity: u64, pattern: u64 },
    /// Staged storage for a value write: on apply, the cell replaces
    /// whatever `entity` holds at `id`. A constructed staged cell counts
    /// as a live value while it sits in the queue.
    PlaceCmd { entity: u64, id: u64, cell: Option<V> },
}

/// One entity's storage row: its component ids in column order, the cell
/// of each column, its enable/disable toggle bits, and a generation stamp
/// bumped by every structural mutation of the row.
pub struct EntityRec<V> {
    pub id: u64,
    pub ids: Vec<u64>,
    pub cells: Vec<Option<V>>,
    pub tg_ids: Vec<u64>,
    pub tg_on: Vec<bool>,
    pub gen: u64,
}

/// An entity's resolved storage location: row index, row offset (always 0
/// here, every entity owning its row), and the generation stamp observed
/// at resolution time. A record is invalidated by any structural mutation
/// of its entity and must be re-resolved after one.
pub struct Record {
    pub tab: usize,
    pub row: usize,
    pub gen: u64,
}

// ---------------------------------------------------------------------
// Association kit: lookup in parallel (keys, values) sequences.
// ---------------------------------------------------------------------

/// The value associated with `key`, searching from the back (so the last
/// binding wins; with distinct keys the direction is irrelevant).
pub open spec fn assoc<C>(keys: Seq<u64>, vals: Seq<C>, key: u64) -> Option<C>
    decreases keys.len(),
{
    if keys.len() == 0 {
        None
    } else if keys[keys.len() - 1] == key {
        Some(vals[keys.len() - 1])
    } else {
        assoc(keys.drop_last(), vals.drop_last(), key)
    }
}

/// All keys pairwise distinct.
pub open spec fn distinct_keys(keys: Seq<u64>) -> bool {
    forall|i: int, j: int| 0 <= i < j < keys.len() ==> keys[i] != keys[j]
}

pub(crate) proof fn lemma_assoc_some_iff<C>(keys: Seq<u64>, vals: Seq<C>, key: u64)
    requires
        keys.len() == vals.len(),
    ensures
        (assoc(keys, vals, key) is Some) <==> keys.contains(key),
    decreases keys.len(),
{
    if keys.len() > 0 {
        if keys[keys.len() - 1] == key {
        } else {
            lemma_assoc_some_iff(keys.drop_last(), vals.drop_last(), key);
            assert(keys.drop_last().contains(key) ==> keys.contains(key)) by {
                if keys.drop_last().contains(key) {
                    let i = choose|i: int|
                        0 <= i < keys.drop_last().len() && keys.drop_last()[i] == key;
                    assert(keys[i] == key);
                }
            }
            assert(keys.contains(key) ==> keys.drop_last().contains(key)) by {
                if keys.contains(key) {
                    let i = choose|i: int| 0 <= i < keys.len() && keys[i] == key;
                    assert(i < keys.len() - 1);
                    assert(keys.drop_last()[i] == key);
                }
            }
        }
    }
}

proof fn lemma_assoc_update_key<C>(keys: Seq<u64>, vals: Seq<C>, j: int, c: C, key: u64)
    requires
        keys.len() == vals.len(),
        0 <= j < keys.len(),
        distinct_keys(keys),
    ensures
        assoc(keys, vals.update(j, c), key) == (if key == keys[j] {
            Some(c)
        } else {
            assoc(keys, vals, key)
        }),
    decreases keys.len(),
{
    let n = keys.len() as int;
    if j == n - 1 {
        if key == keys[j] {
        } else {
            assert(vals.update(j, c).drop_last() =~= vals.drop_last());
        }
    } else {
        assert(vals.update(j, c).drop_last() =~= vals.drop_last().update(j, c));
        if keys[n - 1] == key {
        } else {
            lemma_assoc_update_key(keys.drop_last(), vals.drop_last(), j, c, key);
        }
    }
}

pub(crate) proof fn lemma_assoc_update<C>(keys: Seq<u64>, vals: Seq<C>, j: int, c: C)
    requires
        keys.len() == vals.len(),
        0 <= j < keys.len(),
        distinct_keys(keys),
    ensures
        forall|key: u64| #[trigger]
            assoc(keys, vals.update(j, c), key) == (if key == keys[j] {
                Some(c)
            } else {
                assoc(keys, vals, key)
            }),
{
    assert forall|key: u64| #[trigger]
        assoc(keys, vals.update(j, c), key) == (if key == keys[j] {
            Some(c)
        } else {
            assoc(keys, vals, key)
        }) by {
        lemma_assoc_update_key(keys, vals, j, c, key);
    }
}

pub(crate) proof fn lemma_assoc_push<C>(keys: Seq<u64>, vals: Seq<C>, k: u64, c: C)
    requires
        keys.len() == vals.len(),
    ensures
        forall|key: u64| #[trigger]
            assoc(keys.push(k), vals.push(c), key) == (if key == k {
                Some(c)
            } else {
                assoc(keys, vals, key)
            }),
{
    assert(keys.push(k).drop_last() =~= keys);
    assert(vals.push(c).drop_last() =~= vals);
    assert forall|key: u64| #[trigger]
        assoc(keys.push(k), vals.push(c), key) == (if key == k {
            Some(c)
        } else {
            assoc(keys, vals, key)
        }) by {
        assert(keys.push(k)[keys.push(k).len() - 1] == k);
    }
}

proof fn lemma_assoc_remove_key<C>(keys: Seq<u64>, vals: Seq<C>, j: int, key: u64)
    requires
        keys.len() == vals.len(),
        0 <= j < keys.len(),
        distinct_keys(keys),
    ensures
        assoc(keys.remove(j), vals.remove(j), key) == (if key == keys[j] {
            None::<C>
        } else {
            assoc(keys, vals, key)
        }),
    decreases keys.len(),
{
    let n = keys.len() as int;
    if j == n - 1 {
        assert(keys.remove(j) =~= keys.drop_last());
        assert(vals.remove(j) =~= vals.drop_last());
        if key == keys[j] {
            lemma_assoc_some_iff(keys.drop_last(), vals.drop_last(), key);
            assert(!keys.drop_last().contains(key)) by {
                if keys.drop_last().contains(key) {
                    let i = choose|i: int|
                        0 <= i < keys.drop_last().len() && keys.drop_last()[i] == key;
                    assert(keys[i] == keys[j]);
                }
            }
        }
    } else {
        assert(keys.remove(j).len() == n - 1);
        assert(keys.remove(j)[n - 2] == keys[n - 1]);
        assert(vals.remove(j)[n - 2] == vals[n - 1]);
        assert(keys.remove(j).drop_last() =~= keys.drop_last().remove(j));
        assert(vals.remove(j).drop_last() =~= vals.drop_last().remove(j));
        if keys[n - 1] == key {
            assert(keys[j] != key);
        } else {
            lemma_assoc_remove_key(keys.drop_last(), vals.drop_last(), j, key);
        }
    }
}

pub(crate) proof fn lemma_assoc_remove<C>(keys: Seq<u64>, vals: Seq<C>, j: int)
    requires
        keys.len() == vals.len(),
        0 <= j < keys.len(),
        distinct_keys(keys),
    ensures
        forall|key: u64| #[trigger]
            assoc(keys.remove(j), vals.remove(j), key) == (if key == keys[j] {
                None::<C>
            } else {
                assoc(keys, vals, key)
            }),
{
    assert forall|key: u64| #[trigger]
        assoc(keys.remove(j), vals.remove(j), key) == (if key == keys[j] {
            None::<C>
        } else {
            assoc(keys, vals, key)
        }) by {
        lemma_assoc_remove_key(keys, vals, j, key);
    }
}

pub(crate) proof fn lemma_assoc_at<C>(keys: Seq<u64>, vals: Seq<C>, j: int)
    requires
        keys.len() == vals.len(),
        0 <= j < keys.len(),
        distinct_keys(keys),
    ensures
        assoc(keys, vals, keys[j]) == Some(vals[j]),
    decreases keys.len(),
{
    let n = keys.len() as int;
    if j == n - 1 {
    } else if keys[n - 1] == keys[j] {
        assert(false);
    } else {
        lemma_assoc_at(keys.drop_last(), vals.drop_last(), j);
    }
}

// ---------------------------------------------------------------------
// Entity row lookup.
// ---------------------------------------------------------------------

/// The storage row of entity `e`, if any.
pub open spec fn ent_assoc<V>(s: Seq<EntityRec<V>>, e: u64) -> Option<EntityRec<V>>
    decreases s.len(),
{
    if s.len() == 0 {
        None
    } else if s[s.len() - 1].id == e {
        Some(s[s.len() - 1])
    } else {
        ent_assoc(s.drop_last(), e)
    }
}

/// All row entity ids pairwise distinct.
pub open spec fn distinct_ents<V>(s: Seq<EntityRec<V>>) -> bool {
    forall|i: int, j: int| 0 <= i < j < s.len() ==> s[i].id != s[j].id
}

proof fn lemma_ent_some_iff<V>(s: Seq<EntityRec<V>>, e: u64)
    ensures
        (ent_assoc(s, e) is Some) <==> exists|i: int| 0 <= i < s.len() && s[i].id == e,
    decreases s.len(),
{
    if s.len() > 0 {
        if s[s.len() - 1].id == e {
        } else {
            lemma_ent_some_iff(s.drop_last(), e);
            assert((exists|i: int| 0 <= i < s.drop_last().len() && s.drop_last()[i].id == e)
                <==> (exists|i: int| 0 <= i < s.len() && s[i].id == e)) by {
                if exists|i: int| 0 <= i < s.drop_last().len() && s.drop_last()[i].id == e {
                    let i = choose|i: int| 0 <= i < s.drop_last().len() && s.drop_last()[i].id == e;
                    assert(s[i].id == e);
                }
                if exists|i: int| 0 <= i < s.len() && s[i].id == e {
                    let i = choose|i: int| 0 <= i < s.len() && s[i].id == e;
                    assert(i < s.len() - 1);
                    assert(s.drop_last()[i].id == e);
                }
            }
        }
    }
}

proof fn lemma_ent_update_key<V>(s: Seq<EntityRec<V>>, i: int, r: EntityRec<V>, e: u64)
    requires
        0 <= i < s.len(),
        distinct_ents(s),
        r.id == s[i].id,
    ensures
        ent_assoc(s.update(i, r), e) == (if e == s[i].id {
            Some(r)
        } else {
            ent_assoc(s, e)
        }),
    decreases s.len(),
{
    let n = s.len() as int;
    if i == n - 1 {
        if e == s[i].id {
        } else {
            assert(s.update(i, r).drop_last() =~= s.drop_last());
        }
    } else {
        assert(s.update(i, r).drop_last() =~= s.drop_last().update(i, r));
        if s[n - 1].id == e {
            assert(s[i].id != e);
        } else {
            lemma_ent_update_key(s.drop_last(), i, r, e);
        }
    }
}

proof fn lemma_ent_update<V>(s: Seq<EntityRec<V>>, i: int, r: EntityRec<V>)
    requires
        0 <= i < s.len(),
        distinct_ents(s),
        r.id == s[i].id,
    ensures
        forall|e: u64| #[trigger]
            ent_assoc(s.update(i, r), e) == (if e == s[i].id {
                Some(r)
            } else {
                ent_assoc(s, e)
            }),
{
    assert forall|e: u64| #[trigger]
        ent_assoc(s.update(i, r), e) == (if e == s[i].id {
            Some(r)
        } else {
            ent_assoc(s, e)
        }) by {
        lemma_ent_update_key(s, i, r, e);
    }
}

proof fn lemma_ent_push<V>(s: Seq<EntityRec<V>>, r: EntityRec<V>)
    ensures
        forall|e: u64| #[trigger]
            ent_assoc(s.push(r), e) == (if e == r.id {
                Some(r)
            } else {
                ent_assoc(s, e)
            }),
{
    assert(s.push(r).drop_last() =~= s);
    assert forall|e: u64| #[trigger]
        ent_assoc(s.push(r), e) == (if e == r.id {
            Some(r)
        } else {
            ent_assoc(s, e)
        }) by {
        assert(s.push(r)[s.push(r).len() - 1] == r);
    }
}

proof fn lemma_ent_remove_key<V>(s: Seq<EntityRec<V>>, i: int, e: u64)
    requires
        0 <= i < s.len(),
        distinct_ents(s),
    ensures
        ent_assoc(s.remove(i), e) == (if e == s[i].id {
            None::<EntityRec<V>>
        } else {
            ent_assoc(s, e)
        }),
    decreases s.len(),
{
    let n = s.len() as int;
    if i == n - 1 {
        assert(s.remove(i) =~= s.drop_last());
        if e == s[i].id {
            lemma_ent_some_iff(s.drop_last(), e);
            assert(!(exists|k: int| 0 <= k < s.drop_last().len() && s.drop_last()[k].id == e)) by {
                if exists|k: int| 0 <= k < s.drop_last().len() && s.drop_last()[k].id == e {
                    let k = choose|k: int|
                        0 <= k < s.drop_last().len() && s.drop_last()[k].id == e;
                    assert(s[k].id == s[i].id);
                }
            }
        }
    } else {
        assert(s.remove(i)[n - 2] == s[n - 1]);
        assert(s.remove(i).drop_last() =~= s.drop_last().remove(i));
        if s[n - 1].id == e {
            assert(s[i].id != e);
        } else {
            lemma_ent_remove_key(s.drop_last(), i, e);
        }
    }
}

proof fn lemma_ent_at<V>(s: Seq<EntityRec<V>>, i: int)
    requires
        0 <= i < s.len(),
        distinct_ents(s),
    ensures
        ent_assoc(s, s[i].id) == Some(s[i]),
    decreases s.len(),
{
    let n = s.len() as int;
    if i == n - 1 {
    } else if s[n - 1].id == s[i].id {
        assert(false);
    } else {
        lemma_ent_at(s.drop_last(), i);
    }
}

// ---------------------------------------------------------------------
// Event and signal counting.
// ---------------------------------------------------------------------

/// How many entries of `log` are exactly `(e, id)`.
pub open spec fn count_at(log: Seq<(u64, u64)>, e: u64, id: u64) -> nat
    decreases log.len(),
{
    if log.len() == 0 {
        0
    } else {
        (if log[log.len() - 1] == (e, id) {
            1nat
        } else {
            0nat
        }) + count_at(log.drop_last(), e, id)
    }
}

proof fn lemma_count_push(log: Seq<(u64, u64)>, x: (u64, u64))
    ensures
        forall|e: u64, id: u64| #[trigger]
            count_at(log.push(x), e, id) == count_at(log, e, id) + (if x == (e, id) {
                1nat
            } else {
                0nat
            }),
{
    assert(log.push(x).drop_last() =~= log);
    assert forall|e: u64, id: u64| #[trigger]
        count_at(log.push(x), e, id) == count_at(log, e, id) + (if x == (e, id) {
            1nat
        } else {
            0nat
        }) by {
        assert(log.push(x)[log.push(x).len() - 1] == x);
    }
}

// ---------------------------------------------------------------------
// Queue views: staged cells and staged live-value counts.
// ---------------------------------------------------------------------

/// The staged cell of the latest `PlaceCmd` for `(e, id)`, if any.
pub open spec fn place_assoc<V>(q: Seq<Cmd<V>>, e: u64, id: u64) -> Option<Option<V>>
    decreases q.len(),
{
    if q.len() == 0 {
        None
    } else {
        match q[q.len() - 1] {
            Cmd::PlaceCmd { entity, id: cid, cell } => if entity == e && cid == id {
                Some(cell)
            } else {
                place_assoc(q.drop_last(), e, id)
            },
            _ => place_assoc(q.drop_last(), e, id),
        }
    }
}

/// Whether one command holds a constructed staged cell for `(e, id)`.
pub open spec fn live1<V>(c: Cmd<V>, e: u64, id: u64) -> nat {
    match c {
        Cmd::PlaceCmd { entity, id: cid, cell } => if entity == e && cid == id && cell is Some {
            1nat
        } else {
            0nat
        },
        _ => 0nat,
    }
}

/// How many constructed staged cells for `(e, id)` sit in the queue.
pub open spec fn qlive<V>(q: Seq<Cmd<V>>, e: u64, id: u64) -> nat
    decreases q.len(),
{
    if q.len() == 0 {
        0
    } else {
        live1(q[0], e, id) + qlive(q.drop_first(), e, id)
    }
}

proof fn lemma_qlive_push<V>(q: Seq<Cmd<V>>, c: Cmd<V>)
    ensures
        forall|e: u64, id: u64| #[trigger]
            qlive(q.push(c), e, id) == qlive(q, e, id) + live1(c, e, id),
    decreases q.len(),
{
    if q.len() == 0 {
        assert forall|e: u64, id: u64| #[trigger]
            qlive(q.push(c), e, id) == qlive(q, e, id) + live1(c, e, id) by {
            assert(q.push(c)[0] == c);
            assert(q.push(c).drop_first() =~= Seq::<Cmd<V>>::empty());
            assert(qlive(q.push(c), e, id) == live1(c, e, id) + qlive(
                Seq::<Cmd<V>>::empty(),
                e,
                id,
            ));
        }
    } else {
        lemma_qlive_push(q.drop_first(), c);
        assert forall|e: u64, id: u64| #[trigger]
            qlive(q.push(c), e, id) == qlive(q, e, id) + live1(c, e, id) by {
            assert(q.push(c)[0] == q[0]);
            assert(q.push(c).drop_first() =~= q.drop_first().push(c));
            assert(qlive(q.push(c), e, id) == live1(q[0], e, id) + qlive(
                q.drop_first().push(c),
                e,
                id,
            ));
            assert(qlive(q.drop_first().push(c), e, id) == qlive(q.drop_first(), e, id) + live1(
                c,
                e,
                id,
            ));
            assert(qlive(q, e, id) == live1(q[0], e, id) + qlive(q.drop_first(), e, id));
        }
    }
}

proof fn lemma_qlive_update<V>(q: Seq<Cmd<V>>, j: int, c: Cmd<V>)
    requires
        0 <= j < q.len(),
    ensures
        forall|e: u64, id: u64| #[trigger]
            qlive(q.update(j, c), e, id) + live1(q[j], e, id) == qlive(q, e, id) + live1(c, e, id),
    decreases q.len(),
{
    if j == 0 {
        assert forall|e: u64, id: u64| #[trigger]
            qlive(q.update(j, c), e, id) + live1(q[j], e, id) == qlive(q, e, id) + live1(
                c,
                e,
                id,
            ) by {
            assert(q.update(0, c)[0] == c);
            assert(q.update(0, c).drop_first() =~= q.drop_first());
            assert(qlive(q.update(0, c), e, id) == live1(c, e, id) + qlive(
                q.drop_first(),
                e,
                id,
            ));
            assert(qlive(q, e, id) == live1(q[0], e, id) + qlive(q.drop_first(), e, id));
        }
    } else {
        lemma_qlive_update(q.drop_first(), j - 1, c);
        assert forall|e: u64, id: u64| #[trigger]
            qlive(q.update(j, c), e, id) + live1(q[j], e, id) == qlive(q, e, id) + live1(
                c,
                e,
                id,
            ) by {
            assert(q.update(j, c)[0] == q[0]);
            assert(q.update(j, c).drop_first() =~= q.drop_first().update(j - 1, c));
            assert(q.drop_first()[j - 1] == q[j]);
            assert(qlive(q.update(j, c), e, id) == live1(q[0], e, id) + qlive(
                q.drop_first().update(j - 1, c),
                e,
                id,
            ));
            assert(qlive(q.drop_first().update(j - 1, c), e, id) + live1(q.drop_first()[j - 1], e, id)
                == qlive(q.drop_first(), e, id) + live1(c, e, id));
            assert(qlive(q, e, id) == live1(q[0], e, id) + qlive(q.drop_first(), e, id));
        }
    }
}

/// Whether a command is a `PlaceCmd` for exactly `(e, id)`.
pub open spec fn live_coord<V>(c: Cmd<V>, e: u64, id: u64) -> bool {
    match c {
        Cmd::PlaceCmd { entity, id: cid, .. } => entity == e && cid == id,
        _ => false,
    }
}

proof fn lemma_place_push_place<V>(q: Seq<Cmd<V>>, e: u64, id: u64, cell: Option<V>)
    ensures
        forall|e2: u64, id2: u64| #[trigger]
            place_assoc(q.push(Cmd::PlaceCmd { entity: e, id, cell }), e2, id2) == (if e2 == e
                && id2 == id {
                Some(cell)
            } else {
                place_assoc(q, e2, id2)
            }),
{
    let c = Cmd::PlaceCmd { entity: e, id, cell };
    assert(q.push(c).drop_last() =~= q);
    assert forall|e2: u64, id2: u64| #[trigger]
        place_assoc(q.push(c), e2, id2) == (if e2 == e && id2 == id {
            Some(cell)
        } else {
            place_assoc(q, e2, id2)
        }) by {
        assert(q.push(c)[q.push(c).len() - 1] == c);
    }
}

proof fn lemma_place_push_other<V>(q: Seq<Cmd<V>>, c: Cmd<V>)
    requires
        !(c is PlaceCmd),
    ensures
        forall|e2: u64, id2: u64| #[trigger]
            place_assoc(q.push(c), e2, id2) == place_assoc(q, e2, id2),
{
    assert(q.push(c).drop_last() =~= q);
    assert forall|e2: u64, id2: u64| #[trigger]
        place_assoc(q.push(c), e2, id2) == place_assoc(q, e2, id2) by {
        assert(q.push(c)[q.push(c).len() - 1] == c);
    }
}

// ---------------------------------------------------------------------
// The world.
// ---------------------------------------------------------------------

/// The storage engine: per-entity rows, the deferred command queue, the
/// modification-signal log and the construct/destruct event logs.
pub struct World<V> {
    ents: Vec<EntityRec<V>>,
    q: Vec<Cmd<V>>,
    deferred: bool,
    mod_log: Vec<(u64, u64)>,
    ctor_events: Vec<(u64, u64)>,
    dtor_events: Vec<(u64, u64)>,
    with_ctx: u64,
    scope_ctx: u64,
}

/// In immediate mode a well-formed world has an empty command queue.
pub proof fn lemma_immediate_queue_empty<V: Copy>(w: World<V>)
    requires
        w.wf(),
        !w.is_def(),
    ensures
        w.queue().len() == 0,
{
}

/// A dead entity has no storage: every component coordinate of an
/// entity without a row is absent.
pub proof fn lemma_not_alive_no_comp<V: Copy>(w: World<V>, e: u64)
    requires
        !w.alive(e),
    ensures
        forall|id: u64| #[trigger] w.main_slot(e, id) is None,
{
}

impl<V: Copy> World<V> {
    /// The storage row of `e`, if it is alive.
    pub closed spec fn ent_rec(self, e: u64) -> Option<EntityRec<V>> {
        ent_assoc(self.ents@, e)
    }

    /// Whether entity `e` is alive.
    pub open spec fn alive(self, e: u64) -> bool {
        self.ent_rec(e) is Some
    }

    /// The main-storage cell of `(e, id)`: `None` when no column exists,
    /// `Some(None)` when the column exists but holds no constructed value,
    /// `Some(Some(v))` when `v` is constructed in it.
    pub closed spec fn main_slot(self, e: u64, id: u64) -> Option<Option<V>> {
        match ent_assoc(self.ents@, e) {
            Some(r) => assoc(r.ids@, r.cells@, id),
            None => None,
        }
    }

    /// Whether `e` currently has `id` (a column exists for it).
    pub open spec fn has(self, e: u64, id: u64) -> bool {
        self.main_slot(e, id) is Some
    }

    /// The constructed value at `(e, id)`, if one exists.
    pub open spec fn value(self, e: u64, id: u64) -> Option<V> {
        match self.main_slot(e, id) {
            Some(c) => c,
            None => None,
        }
    }

    /// The enable/disable toggle bit of `(e, id)`, if one was ever set.
    pub closed spec fn toggle(self, e: u64, id: u64) -> Option<bool> {
        match ent_assoc(self.ents@, e) {
            Some(r) => assoc(r.tg_ids@, r.tg_on@, id),
            None => None,
        }
    }

    /// Whether the world is in deferred (command-buffering) mode.
    pub closed spec fn is_def(self) -> bool {
        self.deferred
    }

    /// The id that entities created in a `with` scope receive.
    pub closed spec fn with_id(self) -> u64 {
        self.with_ctx
    }

    /// The current default-scope entity.
    pub closed spec fn scope_id(self) -> u64 {
        self.scope_ctx
    }

    /// The modification-signal log, in signal order.
    pub closed spec fn mods(self) -> Seq<(u64, u64)> {
        self.mod_log@
    }

    /// The construct-event log, in event order.
    pub closed spec fn ctor_log(self) -> Seq<(u64, u64)> {
        self.ctor_events@
    }

    /// The destruct-event log, in event order.
    pub closed spec fn dtor_log(self) -> Seq<(u64, u64)> {
        self.dtor_events@
    }

    /// How many modification signals `(e, id)` has received.
    pub open spec fn mod_count(self, e: u64, id: u64) -> nat {
        count_at(self.mods(), e, id)
    }

    /// How many values have been constructed at `(e, id)`.
    pub open spec fn ctors(self, e: u64, id: u64) -> nat {
        count_at(self.ctor_log(), e, id)
    }

    /// How many values have been destroyed at `(e, id)`.
    pub open spec fn dtors(self, e: u64, id: u64) -> nat {
        count_at(self.dtor_log(), e, id)
    }

    /// The deferred command queue, in enqueue order.
    pub closed spec fn queue(self) -> Seq<Cmd<V>> {
        self.q@
    }

    /// The staged cell of the latest queued write for `(e, id)`, if any.
    pub open spec fn place_slot(self, e: u64, id: u64) -> Option<Option<V>> {
        place_assoc(self.queue(), e, id)
    }

    /// How many constructed staged cells for `(e, id)` sit in the queue.
    pub open spec fn staged_live(self, e: u64, id: u64) -> nat {
        qlive(self.queue(), e, id)
    }

    /// Whether a constructed value sits in main storage at `(e, id)`.
    pub open spec fn main_live(self, e: u64, id: u64) -> nat {
        if self.value(e, id) is Some {
            1nat
        } else {
            0nat
        }
    }

    /// The cell a value write targets right now: the staged cell while
    /// deferred, the main-storage cell otherwise.
    pub open spec fn region_slot(self, e: u64, id: u64) -> Option<Option<V>> {
        if self.is_def() {
            self.place_slot(e, id)
        } else {
            self.main_slot(e, id)
        }
    }

    /// The constructed value in the current write region, if any.
    pub open spec fn region_value(self, e: u64, id: u64) -> Option<V> {
        match self.region_slot(e, id) {
            Some(c) => c,
            None => None,
        }
    }

    /// A record resolves against the current state: its row index is in
    /// range and its generation stamp is the row's current one.
    pub closed spec fn rec_current(self, rec: Record) -> bool {
        rec.tab < self.ents@.len() && self.ents@[rec.tab as int].gen == rec.gen
    }

    /// The entity whose row a record points at.
    pub closed spec fn rec_entity(self, rec: Record) -> u64 {
        if rec.tab < self.ents@.len() {
            self.ents@[rec.tab as int].id
        } else {
            0
        }
    }

    /// The cell in column `c` of the row a record points at, if in range.
    pub closed spec fn col_cell(self, rec: Record, c: usize) -> Option<Option<V>> {
        if rec.tab < self.ents@.len() && c < self.ents@[rec.tab as int].cells@.len() {
            Some(self.ents@[rec.tab as int].cells@[c as int])
        } else {
            None
        }
    }

    spec fn rec_wf(r: EntityRec<V>) -> bool {
        &&& r.id != 0
        &&& r.ids@.len() == r.cells@.len()
        &&& distinct_keys(r.ids@)
        &&& r.tg_ids@.len() == r.tg_on@.len()
        &&& distinct_keys(r.tg_ids@)
    }

    spec fn cmd_entity(c: Cmd<V>) -> u64 {
        match c {
            Cmd::AddCmd { entity, .. } => entity,
            Cmd::RemoveCmd { entity, .. } => entity,
            Cmd::PlaceCmd { entity, .. } => entity,
        }
    }

    /// Structural well-formedness: distinct nonzero entity ids, parallel
    /// column sequences of equal length with distinct ids, queued commands
    /// only for live entities, and an empty queue outside deferred mode.
    pub closed spec fn structs_ok(self) -> bool {
        &&& distinct_ents(self.ents@)
        &&& forall|i: int| 0 <= i < self.ents@.len() ==> Self::rec_wf(#[trigger] self.ents@[i])
        &&& forall|i: int|
            0 <= i < self.q@.len() ==> self.alive(Self::cmd_entity(#[trigger] self.q@[i]))
        &&& !self.deferred ==> self.q@.len() == 0
    }

    /// The balance invariant: for every coordinate, every constructed
    /// value was constructed exactly once more than it was destroyed,
    /// the difference being the values currently live in main storage or
    /// staged in the queue. In particular no destruct event ever targets
    /// unconstructed memory.
    pub open spec fn balanced(self) -> bool {
        forall|e: u64, id: u64|
            (#[trigger] self.ctors(e, id)) == self.dtors(e, id) + self.main_live(e, id)
                + self.staged_live(e, id)
    }

    /// Well-formedness of the whole world.
    pub open spec fn wf(self) -> bool {
        self.structs_ok() && self.balanced()
    }
}

// ---------------------------------------------------------------------
// Frame predicates: what an operation leaves untouched.
// ---------------------------------------------------------------------

/// Storage, aliveness, toggles, queue and all logs are unchanged.
pub open spec fn same_store<V: Copy>(a: World<V>, b: World<V>) -> bool {
    &&& forall|e: u64| #[trigger] b.alive(e) == a.alive(e)
    &&& forall|e: u64, id: u64| #[trigger] b.main_slot(e, id) == a.main_slot(e, id)
    &&& forall|e: u64, id: u64| #[trigger] b.toggle(e, id) == a.toggle(e, id)
    &&& b.queue() == a.queue()
    &&& b.mods() == a.mods()
    &&& b.ctor_log() == a.ctor_log()
    &&& b.dtor_log() == a.dtor_log()
}

/// Everything outside entity `e` is unchanged, and so are aliveness,
/// toggles and the mode/context fields.
pub open spec fn frame_entity<V: Copy>(a: World<V>, b: World<V>, e: u64) -> bool {
    &&& forall|e2: u64| #[trigger] b.alive(e2) == a.alive(e2)
    &&& forall|e2: u64, id2: u64|
        e2 != e ==> #[trigger] b.main_slot(e2, id2) == a.main_slot(e2, id2)
    &&& forall|e2: u64, id2: u64|
        e2 != e ==> #[trigger] b.place_slot(e2, id2) == a.place_slot(e2, id2)
    &&& forall|e2: u64, id2: u64|
        e2 != e ==> #[trigger] b.staged_live(e2, id2) == a.staged_live(e2, id2)
    &&& forall|e2: u64, id2: u64| #[trigger] b.toggle(e2, id2) == a.toggle(e2, id2)
    &&& forall|e2: u64, id2: u64|
        e2 != e ==> #[trigger] b.ctors(e2, id2) == a.ctors(e2, id2)
    &&& forall|e2: u64, id2: u64|
        e2 != e ==> #[trigger] b.dtors(e2, id2) == a.dtors(e2, id2)
    &&& forall|e2: u64, id2: u64|
        e2 != e ==> #[trigger] b.mod_count(e2, id2) == a.mod_count(e2, id2)
    &&& b.is_def() == a.is_def()
    &&& b.with_id() == a.with_id()
    &&& b.scope_id() == a.scope_id()
}

/// Everything outside the single coordinate `(e, id)` is unchanged.
pub open spec fn frame_coord<V: Copy>(a: World<V>, b: World<V>, e: u64, id: u64) -> bool {
    &&& frame_entity(a, b, e)
    &&& forall|id2: u64| id2 != id ==> #[trigger] b.main_slot(e, id2) == a.main_slot(e, id2)
    &&& forall|id2: u64| id2 != id ==> #[trigger] b.place_slot(e, id2) == a.place_slot(e, id2)
    &&& forall|id2: u64| id2 != id ==> #[trigger] b.staged_live(e, id2) == a.staged_live(e, id2)
    &&& forall|id2: u64| id2 != id ==> #[trigger] b.ctors(e, id2) == a.ctors(e, id2)
    &&& forall|id2: u64| id2 != id ==> #[trigger] b.dtors(e, id2) == a.dtors(e, id2)
    &&& forall|id2: u64| id2 != id ==> #[trigger] b.mod_count(e, id2) == a.mod_count(e, id2)
}

proof fn lemma_balance_entity<V: Copy>(a: World<V>, b: World<V>, e: u64)
    requires
        a.balanced(),
        forall|e2: u64, id2: u64|
            e2 != e ==> #[trigger] b.ctors(e2, id2) == a.ctors(e2, id2) && b.dtors(e2, id2)
                == a.dtors(e2, id2) && b.main_live(e2, id2) == a.main_live(e2, id2)
                && b.staged_live(e2, id2) == a.staged_live(e2, id2),
        forall|id2: u64|
            (#[trigger] b.ctors(e, id2)) + a.dtors(e, id2) + a.main_live(e, id2) + a.staged_live(
                e,
                id2,
            ) == a.ctors(e, id2) + b.dtors(e, id2) + b.main_live(e, id2) + b.staged_live(e, id2),
    ensures
        b.balanced(),
{
    assert forall|e2: u64, id2: u64|
        (#[trigger] b.ctors(e2, id2)) == b.dtors(e2, id2) + b.main_live(e2, id2) + b.staged_live(
            e2,
            id2,
        ) by {
        assert(a.ctors(e2, id2) == a.dtors(e2, id2) + a.main_live(e2, id2) + a.staged_live(
            e2,
            id2,
        ));
        if e2 == e {
            assert(b.ctors(e, id2) + a.dtors(e, id2) + a.main_live(e, id2) + a.staged_live(e, id2)
                == a.ctors(e, id2) + b.dtors(e, id2) + b.main_live(e, id2) + b.staged_live(
                e,
                id2,
            ));
        }
    }
}

// ---------------------------------------------------------------------
// Read-side operations and mode/context switches.
// ---------------------------------------------------------------------

proof fn lemma_same_fields_wf<V: Copy>(a: World<V>, b: World<V>)
    requires
        a.wf(),
        b.ents == a.ents,
        b.q == a.q,
        b.ctor_events == a.ctor_events,
        b.dtor_events == a.dtor_events,
        !b.is_def() ==> b.queue().len() == 0,
    ensures
        b.wf(),
        forall|e: u64| #[trigger] b.alive(e) == a.alive(e),
        forall|e: u64, id: u64| #[trigger] b.main_slot(e, id) == a.main_slot(e, id),
        forall|e: u64, id: u64| #[trigger] b.toggle(e, id) == a.toggle(e, id),
        b.queue() == a.queue(),
        b.ctor_log() == a.ctor_log(),
        b.dtor_log() == a.dtor_log(),
{
    assert forall|e: u64| #[trigger] b.alive(e) == a.alive(e) by {
        assert(b.ents@ == a.ents@);
    }
    assert forall|e: u64, id: u64| #[trigger] b.main_slot(e, id) == a.main_slot(e, id) by {
        assert(b.ents@ == a.ents@);
    }
    assert forall|e: u64, id: u64| #[trigger] b.toggle(e, id) == a.toggle(e, id) by {
        assert(b.ents@ == a.ents@);
    }
    assert(b.queue() == a.queue());
    assert(b.ctor_log() == a.ctor_log());
    assert(b.dtor_log() == a.dtor_log());
    assert forall|i: int|
        0 <= i < b.q@.len() implies b.alive(World::cmd_entity(#[trigger] b.q@[i])) by {
        assert(a.alive(World::cmd_entity(a.q@[i])));
        assert(b.alive(World::cmd_entity(b.q@[i])) == a.alive(World::cmd_entity(a.q@[i])));
    }
    assert forall|e: u64, id: u64|
        (#[trigger] b.ctors(e, id)) == b.dtors(e, id) + b.main_live(e, id) + b.staged_live(
            e,
            id,
        ) by {
        assert(a.ctors(e, id) == a.dtors(e, id) + a.main_live(e, id) + a.staged_live(e, id));
        assert(b.main_slot(e, id) == a.main_slot(e, id));
    }
}

fn find_col(ids: &Vec<u64>, id: u64) -> (r: Option<usize>)
    ensures
        match r {
            Some(j) => j < ids@.len() && ids@[j as int] == id,
            None => !ids@.contains(id),
        },
{
    let mut i: usize = 0;
    while i < ids.len()
        invariant
            i <= ids@.len(),
            forall|k: int| 0 <= k < i ==> ids@[k] != id,
        decreases ids@.len() - i,
    {
        if ids[i] == id {
            return Some(i);
        }
        i += 1;
    }
    assert(!ids@.contains(id));
    None
}

fn count_log(log: &Vec<(u64, u64)>, e: u64, id: u64) -> (r: usize)
    ensures
        r == count_at(log@, e, id),
{
    let mut i: usize = 0;
    let mut cnt: usize = 0;
    while i < log.len()
        invariant
            i <= log@.len(),
            cnt <= i,
            cnt == count_at(log@.take(i as int), e, id),
        decreases log@.len() - i,
    {
        let p = log[i];
        proof {
            assert(log@.take(i as int + 1) =~= log@.take(i as int).push(log@[i as int]));
            lemma_count_push(log@.take(i as int), log@[i as int]);
        }
        if p.0 == e && p.1 == id {
            cnt += 1;
        }
        i += 1;
    }
    proof {
        assert(log@.take(log@.len() as int) =~= log@);
    }
    cnt
}

impl<V: Copy> World<V> {
    /// The stored ids of `e`, in column order (empty when not alive).
    pub closed spec fn ent_ids(self, e: u64) -> Seq<u64> {
        match ent_assoc(self.ents@, e) {
            Some(r) => r.ids@,
            None => Seq::empty(),
        }
    }

    /// Whether the stored ids of a live entity `e` contain one matching
    /// the (possibly wildcard) pattern.
    pub open spec fn has_match(self, e: u64, pattern: u64) -> bool {
        exists|k: int|
            0 <= k < self.ent_ids(e).len() && spec_id_matches(#[trigger] self.ent_ids(e)[k], pattern)
    }

    /// A fresh world: no entities, immediate mode, empty queue and logs.
    pub fn new() -> (w: World<V>)
        ensures
            w.wf(),
            !w.is_def(),
            w.with_id() == 0,
            w.scope_id() == 0,
            forall|e: u64| !w.alive(e),
            forall|e: u64, id: u64| #[trigger] w.main_slot(e, id) is None,
            w.queue() == Seq::<Cmd<V>>::empty(),
            w.mods() == Seq::<(u64, u64)>::empty(),
            w.ctor_log() == Seq::<(u64, u64)>::empty(),
            w.dtor_log() == Seq::<(u64, u64)>::empty(),
    {
        World {
            ents: Vec::new(),
            q: Vec::new(),
            deferred: false,
            mod_log: Vec::new(),
            ctor_events: Vec::new(),
            dtor_events: Vec::new(),
            with_ctx: 0,
            scope_ctx: 0,
        }
    }

    fn find_ent_idx(&self, e: u64) -> (r: Option<usize>)
        requires
            self.wf(),
        ensures
            match r {
                Some(i) => i < self.ents@.len() && self.ents@[i as int].id == e && self.ent_rec(e)
                    == Some(self.ents@[i as int]),
                None => !self.alive(e),
            },
    {
        let mut i: usize = 0;
        while i < self.ents.len()
            invariant
                self.wf(),
                i <= self.ents@.len(),
                forall|k: int| 0 <= k < i ==> self.ents@[k].id != e,
            decreases self.ents@.len() - i,
        {
            if self.ents[i].id == e {
                proof {
                    lemma_ent_at(self.ents@, i as int);
                }
                return Some(i);
            }
            i += 1;
        }
        proof {
            lemma_ent_some_iff(self.ents@, e);
        }
        None
    }

    /// Whether the world is buffering structural mutations.
    pub fn is_deferred(&self) -> (r: bool)
        ensures
            r == self.is_def(),
    {
        self.deferred
    }

    /// Read the constructed value at `(e, id)`, if any.
    pub fn get_value(&self, e: u64, id: u64) -> (r: Option<V>)
        requires
            self.wf(),
        ensures
            r == self.value(e, id),
    {
        match self.find_ent_idx(e) {
            None => None,
            Some(i) => {
                let row = &self.ents[i];
                proof {
                    assert(Self::rec_wf(self.ents@[i as int]));
                }
                match find_col(&row.ids, id) {
                    None => {
                        proof {
                            lemma_assoc_some_iff(row.ids@, row.cells@, id);
                        }
                        None
                    },
                    Some(j) => {
                        proof {
                            lemma_assoc_at(row.ids@, row.cells@, j as int);
                        }
                        row.cells[j]
                    },
                }
            },
        }
    }

    /// Whether `e` is alive and currently has `id`.
    pub fn has_id(&self, e: u64, id: u64) -> (r: bool)
        requires
            self.wf(),
        ensures
            r == self.has(e, id),
    {
        match self.find_ent_idx(e) {
            None => false,
            Some(i) => {
                let row = &self.ents[i];
                proof {
                    assert(Self::rec_wf(self.ents@[i as int]));
                    lemma_assoc_some_iff(row.ids@, row.cells@, id);
                }
                match find_col(&row.ids, id) {
                    None => false,
                    Some(_) => {
                        proof {
                            assert(row.ids@.contains(id));
                        }
                        true
                    },
                }
            },
        }
    }

    /// Whether `e` is alive (has a storage row).
    pub fn is_alive(&self, e: u64) -> (r: bool)
        requires
            self.wf(),
        ensures
            r == self.alive(e),
    {
        self.find_ent_idx(e).is_some()
    }

    /// Whether any stored id of `e` matches the (possibly wildcard)
    /// pattern.
    pub fn has_matching(&self, e: u64, pattern: u64) -> (r: bool)
        requires
            self.wf(),
        ensures
            r == self.has_match(e, pattern),
    {
        match self.find_ent_idx(e) {
            None => false,
            Some(i) => {
                let row = &self.ents[i];
                let mut k: usize = 0;
                let mut found = false;
                while k < row.ids.len() && !found
                    invariant
                        k <= row.ids@.len(),
                        found ==> exists|m: int|
                            0 <= m < row.ids@.len() && spec_id_matches(
                                #[trigger] row.ids@[m],
                                pattern,
                            ),
                        !found ==> forall|m: int|
                            0 <= m < k ==> !spec_id_matches(#[trigger] row.ids@[m], pattern),
                    decreases row.ids@.len() - k,
                {
                    if id_matches(row.ids[k], pattern) {
                        found = true;
                    }
                    k += 1;
                }
                proof {
                    assert(ent_assoc(self.ents@, e) == Some(self.ents@[i as int]));
                    assert(*row == self.ents@[i as int]);
                    assert(self.ent_ids(e) == row.ids@);
                    if found {
                        let m = choose|m: int|
                            0 <= m < row.ids@.len() && spec_id_matches(
                                #[trigger] row.ids@[m],
                                pattern,
                            );
                        assert(spec_id_matches(self.ent_ids(e)[m], pattern));
                        assert(self.has_match(e, pattern));
                    } else {
                        assert(forall|m: int|
                            0 <= m < self.ent_ids(e).len() ==> !spec_id_matches(
                                #[trigger] self.ent_ids(e)[m],
                                pattern,
                            ));
                        assert(!self.has_match(e, pattern));
                    }
                }
                found
            },
        }
    }

    /// Resolve an entity to its current storage location.
    pub fn locate(&self, e: u64) -> (r: Option<Record>)
        requires
            self.wf(),
        ensures
            r is Some <==> self.alive(e),
            r matches Some(rec) ==> self.rec_current(rec) && self.rec_entity(rec) == e && rec.row
                == 0,
    {
        match self.find_ent_idx(e) {
            None => None,
            Some(i) => Some(Record { tab: i, row: 0, gen: self.ents[i].gen }),
        }
    }

    /// Resolve a component id to its column in the row a current record
    /// points at.
    pub fn column_index(&self, rec: &Record, id: u64) -> (r: Option<usize>)
        requires
            self.wf(),
        ensures
            self.rec_current(*rec) ==> {
                &&& (r is Some <==> self.has(self.rec_entity(*rec), id))
                &&& (r matches Some(c) ==> self.col_cell(*rec, c) == self.main_slot(
                    self.rec_entity(*rec),
                    id,
                ))
            },
    {
        if rec.tab >= self.ents.len() {
            return None;
        }
        let row = &self.ents[rec.tab];
        proof {
            assert(Self::rec_wf(self.ents@[rec.tab as int]));
            lemma_ent_at(self.ents@, rec.tab as int);
            lemma_assoc_some_iff(row.ids@, row.cells@, id);
        }
        match find_col(&row.ids, id) {
            None => None,
            Some(j) => {
                proof {
                    lemma_assoc_at(row.ids@, row.cells@, j as int);
                }
                Some(j)
            },
        }
    }

    /// Read the cell in column `c` of the row a record points at; yields
    /// `None` when the record is stale or out of range.
    pub fn column_get(&self, rec: &Record, c: usize) -> (r: Option<Option<V>>)
        requires
            self.wf(),
        ensures
            r == if self.rec_current(*rec) {
                self.col_cell(*rec, c)
            } else {
                None::<Option<V>>
            },
    {
        if rec.tab < self.ents.len() {
            let row = &self.ents[rec.tab];
            if row.gen == rec.gen && c < row.cells.len() {
                Some(row.cells[c])
            } else {
                None
            }
        } else {
            None
        }
    }

    /// Enter deferred mode: structural mutations are queued from now on.
    pub fn defer_begin(&mut self)
        requires
            old(self).wf(),
            !old(self).is_def(),
        ensures
            final(self).wf(),
            final(self).is_def(),
            same_store(*old(self), *final(self)),
            final(self).with_id() == old(self).with_id(),
            final(self).scope_id() == old(self).scope_id(),
    {
        self.deferred = true;
        proof {
            lemma_same_fields_wf(*old(self), *self);
        }
    }

    /// Install a new `with`-context id, returning the previous one.
    pub fn set_with(&mut self, id: u64) -> (prev: u64)
        requires
            old(self).wf(),
        ensures
            final(self).wf(),
            prev == old(self).with_id(),
            final(self).with_id() == id,
            final(self).is_def() == old(self).is_def(),
            final(self).scope_id() == old(self).scope_id(),
            same_store(*old(self), *final(self)),
            *final(self) == old(self).spec_with_ctx_set(id),
    {
        let prev = self.with_ctx;
        self.with_ctx = id;
        proof {
            lemma_same_fields_wf(*old(self), *self);
        }
        prev
    }

    /// Install a new default-scope entity, returning the previous one.
    pub fn set_scope(&mut self, id: u64) -> (prev: u64)
        requires
            old(self).wf(),
        ensures
            final(self).wf(),
            prev == old(self).scope_id(),
            final(self).scope_id() == id,
            final(self).is_def() == old(self).is_def(),
            final(self).with_id() == old(self).with_id(),
            same_store(*old(self), *final(self)),
            *final(self) == old(self).spec_scope_set(id),
    {
        let prev = self.scope_ctx;
        self.scope_ctx = id;
        proof {
            lemma_same_fields_wf(*old(self), *self);
        }
        prev
    }

    /// How many construct events have happened in total.
    pub fn construct_count(&self) -> (r: usize)
        ensures
            r == self.ctor_log().len(),
    {
        self.ctor_events.len()
    }

    /// How many destruct events have happened in total.
    pub fn destruct_count(&self) -> (r: usize)
        ensures
            r == self.dtor_log().len(),
    {
        self.dtor_events.len()
    }

    /// How many values have been constructed at `(e, id)`.
    pub fn constructs_at(&self, e: u64, id: u64) -> (r: usize)
        ensures
            r == self.ctors(e, id),
    {
        count_log(&self.ctor_events, e, id)
    }

    /// How many values have been destroyed at `(e, id)`.
    pub fn destructs_at(&self, e: u64, id: u64) -> (r: usize)
        ensures
            r == self.dtors(e, id),
    {
        count_log(&self.dtor_events, e, id)
    }

    /// How many modification signals `(e, id)` has received.
    pub fn modified_at(&self, e: u64, id: u64) -> (r: usize)
        ensures
            r == self.mod_count(e, id),
    {
        count_log(&self.mod_log, e, id)
    }

    /// Read the enable/disable toggle bit of `(e, id)`.
    pub fn get_toggle(&self, e: u64, id: u64) -> (r: Option<bool>)
        requires
            self.wf(),
        ensures
            r == self.toggle(e, id),
    {
        match self.find_ent_idx(e) {
            None => None,
            Some(i) => {
                let row = &self.ents[i];
                proof {
                    assert(Self::rec_wf(self.ents@[i as int]));
                    lemma_assoc_some_iff(row.tg_ids@, row.tg_on@, id);
                }
                match find_col(&row.tg_ids, id) {
                    None => None,
                    Some(j) => {
                        proof {
                            lemma_assoc_at(row.tg_ids@, row.tg_on@, j as int);
                        }
                        Some(row.tg_on[j])
                    },
                }
            },
        }
    }
}

} // verus!


verus! {

// ---------------------------------------------------------------------
// Row replacement: the shared shape of every main-storage mutation.
// ---------------------------------------------------------------------

proof fn lemma_rec_replace<V: Copy>(a: World<V>, b: World<V>, i: int)
    requires
        a.structs_ok(),
        0 <= i < a.ents@.len(),
        b.ents@.len() == a.ents@.len(),
        forall|k: int| 0 <= k < a.ents@.len() && k != i ==> b.ents@[k] == a.ents@[k],
        b.ents@[i].id == a.ents@[i].id,
        b.ents@[i].ids@.len() == b.ents@[i].cells@.len(),
        distinct_keys(b.ents@[i].ids@),
        b.ents@[i].tg_ids@.len() == b.ents@[i].tg_on@.len(),
        distinct_keys(b.ents@[i].tg_ids@),
        b.q == a.q,
        b.deferred == a.deferred,
    ensures
        b.structs_ok(),
        forall|e2: u64| #[trigger] b.alive(e2) == a.alive(e2),
        forall|e2: u64| e2 != a.ents@[i].id ==> #[trigger] b.ent_ids(e2) == a.ent_ids(e2),
        b.ent_ids(a.ents@[i].id) == b.ents@[i].ids@,
        a.ent_ids(a.ents@[i].id) == a.ents@[i].ids@,
        forall|e2: u64, id2: u64|
            e2 != a.ents@[i].id ==> #[trigger] b.main_slot(e2, id2) == a.main_slot(e2, id2),
        forall|e2: u64, id2: u64|
            e2 != a.ents@[i].id ==> #[trigger] b.toggle(e2, id2) == a.toggle(e2, id2),
        forall|id2: u64| #[trigger]
            b.main_slot(a.ents@[i].id, id2) == assoc(b.ents@[i].ids@, b.ents@[i].cells@, id2),
        forall|id2: u64| #[trigger]
            a.main_slot(a.ents@[i].id, id2) == assoc(a.ents@[i].ids@, a.ents@[i].cells@, id2),
        forall|id2: u64| #[trigger]
            b.toggle(a.ents@[i].id, id2) == assoc(b.ents@[i].tg_ids@, b.ents@[i].tg_on@, id2),
        forall|id2: u64| #[trigger]
            a.toggle(a.ents@[i].id, id2) == assoc(a.ents@[i].tg_ids@, a.ents@[i].tg_on@, id2),
        forall|e2: u64, id2: u64| #[trigger] b.place_slot(e2, id2) == a.place_slot(e2, id2),
        forall|e2: u64, id2: u64| #[trigger] b.staged_live(e2, id2) == a.staged_live(e2, id2),
{
    let rowid = a.ents@[i].id;
    assert(b.ents@ =~= a.ents@.update(i, b.ents@[i]));
    lemma_ent_update(a.ents@, i, b.ents@[i]);
    lemma_ent_at(a.ents@, i);
    assert(distinct_ents(b.ents@)) by {
        assert(forall|k: int| 0 <= k < b.ents@.len() ==> #[trigger] b.ents@[k].id == a.ents@[k].id);
    }
    assert forall|k: int| 0 <= k < b.ents@.len() implies World::rec_wf(#[trigger] b.ents@[k]) by {
        if k != i {
            assert(b.ents@[k] == a.ents@[k]);
            assert(World::rec_wf(a.ents@[k]));
        } else {
            assert(World::rec_wf(a.ents@[i]));
        }
    }
    assert forall|k: int|
        0 <= k < b.q@.len() implies b.alive(World::cmd_entity(#[trigger] b.q@[k])) by {
        assert(a.alive(World::cmd_entity(a.q@[k])));
    }
    assert(b.queue() == a.queue());
}

impl<V: Copy> World<V> {
    /// Create a new entity with an empty storage row.
    pub fn spawn(&mut self, e: u64)
        requires
            old(self).wf(),
            e != 0,
            !old(self).alive(e),
        ensures
            final(self).wf(),
            final(self).alive(e),
            forall|e2: u64| e2 != e ==> #[trigger] final(self).alive(e2) == old(self).alive(e2),
            forall|e2: u64, id2: u64| #[trigger]
                final(self).main_slot(e2, id2) == old(self).main_slot(e2, id2),
            forall|e2: u64, id2: u64| #[trigger]
                final(self).toggle(e2, id2) == old(self).toggle(e2, id2),
            final(self).ent_ids(e) == Seq::<u64>::empty(),
            forall|e2: u64| e2 != e ==> #[trigger] final(self).ent_ids(e2) == old(self).ent_ids(e2),
            final(self).queue() == old(self).queue(),
            final(self).mods() == old(self).mods(),
            final(self).ctor_log() == old(self).ctor_log(),
            final(self).dtor_log() == old(self).dtor_log(),
            final(self).is_def() == old(self).is_def(),
            final(self).with_id() == old(self).with_id(),
            final(self).scope_id() == old(self).scope_id(),
    {
        let rec = EntityRec {
            id: e,
            ids: Vec::new(),
            cells: Vec::new(),
            tg_ids: Vec::new(),
            tg_on: Vec::new(),
            gen: 0,
        };
        proof {
            lemma_ent_some_iff(self.ents@, e);
            lemma_ent_push(self.ents@, rec);
        }
        self.ents.push(rec);
        proof {
            let a = *old(self);
            let b = *self;
            assert(distinct_ents(b.ents@)) by {
                assert(forall|k: int|
                    0 <= k < a.ents@.len() ==> #[trigger] b.ents@[k] == a.ents@[k]);
                if !distinct_ents(b.ents@) {
                    let (i, j) = choose|i: int, j: int|
                        0 <= i < j < b.ents@.len() && b.ents@[i].id == b.ents@[j].id;
                    assert(j == b.ents@.len() - 1);
                    assert(exists|k: int| 0 <= k < a.ents@.len() && a.ents@[k].id == e);
                }
            }
            assert forall|k: int|
                0 <= k < b.ents@.len() implies World::rec_wf(#[trigger] b.ents@[k]) by {
                if k < b.ents@.len() - 1 {
                    assert(b.ents@[k] == a.ents@[k]);
                    assert(World::rec_wf(a.ents@[k]));
                }
            }
            assert forall|k: int|
                0 <= k < b.q@.len() implies b.alive(World::cmd_entity(#[trigger] b.q@[k])) by {
                assert(a.alive(World::cmd_entity(a.q@[k])));
            }
            assert forall|e2: u64, id2: u64| #[trigger]
                b.main_slot(e2, id2) == a.main_slot(e2, id2) by {
                if e2 == e {
                    assert(b.main_slot(e2, id2) == assoc(
                        Seq::<u64>::empty(),
                        Seq::<Option<V>>::empty(),
                        id2,
                    ));
                }
            }
            assert forall|e2: u64, id2: u64| #[trigger] b.toggle(e2, id2) == a.toggle(e2, id2) by {
                if e2 == e {
                    assert(b.toggle(e2, id2) == assoc(
                        Seq::<u64>::empty(),
                        Seq::<bool>::empty(),
                        id2,
                    ));
                }
            }
            assert forall|e2: u64, id2: u64|
                (#[trigger] b.ctors(e2, id2)) == b.dtors(e2, id2) + b.main_live(e2, id2)
                    + b.staged_live(e2, id2) by {
                assert(a.ctors(e2, id2) == a.dtors(e2, id2) + a.main_live(e2, id2)
                    + a.staged_live(e2, id2));
                assert(b.main_slot(e2, id2) == a.main_slot(e2, id2));
            }
        }
    }

    /// Apply an add to main storage: no-op when present, otherwise a new
    /// column whose cell starts as `init` (a construct event when `init`
    /// is a value).
    fn add_now(&mut self, e: u64, id: u64, init: Option<V>)
        requires
            old(self).structs_ok(),
            old(self).alive(e),
        ensures
            final(self).structs_ok(),
            final(self).main_slot(e, id) == (if old(self).has(e, id) {
                old(self).main_slot(e, id)
            } else {
                Some(init)
            }),
            final(self).ent_ids(e) == (if old(self).has(e, id) {
                old(self).ent_ids(e)
            } else {
                old(self).ent_ids(e).push(id)
            }),
            forall|e2: u64, id2: u64|
                !(e2 == e && id2 == id) ==> #[trigger] final(self).main_slot(e2, id2) == old(
                    self,
                ).main_slot(e2, id2),
            forall|e2: u64| #[trigger] final(self).alive(e2) == old(self).alive(e2),
            forall|e2: u64, id2: u64| #[trigger]
                final(self).toggle(e2, id2) == old(self).toggle(e2, id2),
            final(self).ctor_log() == (if old(self).has(e, id) || init is None {
                old(self).ctor_log()
            } else {
                old(self).ctor_log().push((e, id))
            }),
            final(self).dtor_log() == old(self).dtor_log(),
            final(self).mods() == old(self).mods(),
            final(self).queue() == old(self).queue(),
            final(self).is_def() == old(self).is_def(),
            final(self).with_id() == old(self).with_id(),
            final(self).scope_id() == old(self).scope_id(),
            forall|e2: u64, id2: u64| #[trigger]
                final(self).place_slot(e2, id2) == old(self).place_slot(e2, id2),
            forall|e2: u64, id2: u64| #[trigger]
                final(self).staged_live(e2, id2) == old(self).staged_live(e2, id2),
    {
        let i = self.find_ent_idx_s(e);
        let row = &self.ents[i];
        proof {
            assert(World::rec_wf(self.ents@[i as int]));
            lemma_assoc_some_iff(row.ids@, row.cells@, id);
            lemma_ent_at(self.ents@, i as int);
        }
        match find_col(&row.ids, id) {
            Some(_) => {
                proof {
                    assert(row.ids@.contains(id));
                    assert(old(self).has(e, id));
                    assert(self.ent_ids(e) == old(self).ent_ids(e));
                }
            },
            None => {
                proof {
                    lemma_assoc_push(row.ids@, row.cells@, id, init);
                }
                let row = &mut self.ents[i];
                row.ids.push(id);
                row.cells.push(init);
                row.gen = if row.gen == u64::MAX {
                    0
                } else {
                    row.gen + 1
                };
                if init.is_some() {
                    self.ctor_events.push((e, id));
                }
                proof {
                    let a = *old(self);
                    let b = *self;
                    assert(distinct_keys(b.ents@[i as int].ids@)) by {
                        let keys = a.ents@[i as int].ids@;
                        assert(b.ents@[i as int].ids@ =~= keys.push(id));
                        assert(!keys.contains(id));
                        assert forall|x: int, y: int|
                            0 <= x < y < keys.push(id).len() implies keys.push(id)[x] != keys.push(
                            id,
                        )[y] by {
                            if y == keys.len() as int {
                                assert(keys.push(id)[x] == keys[x]);
                                assert(keys[x] != id) by {
                                    if keys[x] == id {
                                        assert(keys.contains(id));
                                    }
                                }
                            }
                        }
                    }
                    lemma_rec_replace(a, b, i as int);
                }
            },
        }
    }

    fn find_ent_idx_s(&self, e: u64) -> (i: usize)
        requires
            self.structs_ok(),
            self.alive(e),
        ensures
            i < self.ents@.len(),
            self.ents@[i as int].id == e,
            self.ent_rec(e) == Some(self.ents@[i as int]),
    {
        let mut i: usize = 0;
        proof {
            lemma_ent_some_iff(self.ents@, e);
        }
        loop
            invariant
                self.structs_ok(),
                self.alive(e),
                i <= self.ents@.len(),
                forall|k: int| 0 <= k < i ==> self.ents@[k].id != e,
                exists|k: int| 0 <= k < self.ents@.len() && self.ents@[k].id == e,
            decreases self.ents@.len() - i,
        {
            if i < self.ents.len() {
                if self.ents[i].id == e {
                    proof {
                        lemma_ent_at(self.ents@, i as int);
                    }
                    return i;
                }
                i += 1;
            } else {
                proof {
                    let k = choose|k: int| 0 <= k < self.ents@.len() && self.ents@[k].id == e;
                    assert(false);
                }
            }
        }
    }
}

} // verus!

verus! {

/// While deferred, a region write targets the staged cell claimed at the
/// queue tail: the last queued command must be the `PlaceCmd` for the
/// coordinate. (Immediate mode makes no demand.)
pub open spec fn claimed_tail<V: Copy>(w: World<V>, e: u64, id: u64) -> bool {
    w.is_def() ==> w.queue().len() > 0 && live_coord(w.queue().last(), e, id)
}

/// The queue after a region write: unchanged in immediate mode; while
/// deferred, the tail command replaced by the `PlaceCmd` holding `c`.
pub open spec fn region_queue_after<V: Copy>(
    pre: World<V>,
    post: World<V>,
    e: u64,
    id: u64,
    c: Option<V>,
) -> bool {
    if pre.is_def() {
        post.queue() == pre.queue().update(
            pre.queue().len() - 1,
            Cmd::PlaceCmd { entity: e, id, cell: c },
        )
    } else {
        post.queue() == pre.queue()
    }
}

impl<V: Copy> World<V> {
    fn scan_match(&self, i: usize, pattern: u64) -> (r: Option<usize>)
        requires
            self.structs_ok(),
            i < self.ents@.len(),
        ensures
            match r {
                Some(j) => j < self.ents@[i as int].ids@.len() && spec_id_matches(
                    self.ents@[i as int].ids@[j as int],
                    pattern,
                ),
                None => forall|k: int|
                    0 <= k < self.ents@[i as int].ids@.len() ==> !spec_id_matches(
                        #[trigger] self.ents@[i as int].ids@[k],
                        pattern,
                    ),
            },
    {
        let row = &self.ents[i];
        let mut k: usize = 0;
        while k < row.ids.len()
            invariant
                i < self.ents@.len(),
                row.ids@ == self.ents@[i as int].ids@,
                k <= row.ids@.len(),
                forall|m: int| 0 <= m < k ==> !spec_id_matches(#[trigger] row.ids@[m], pattern),
            decreases row.ids@.len() - k,
        {
            if id_matches(row.ids[k], pattern) {
                return Some(k);
            }
            k += 1;
        }
        None
    }

    /// Remove column `j` of row `i`, destroying its value if one is
    /// constructed there.
    fn remove_col(&mut self, i: usize, j: usize)
        requires
            old(self).structs_ok(),
            i < old(self).ents@.len(),
            j < old(self).ents@[i as int].ids@.len(),
        ensures
            final(self).structs_ok(),
            final(self).main_slot(old(self).ents@[i as int].id, old(self).ents@[i as int].ids@[j as int])
                is None,
            forall|e2: u64, id2: u64|
                !(e2 == old(self).ents@[i as int].id && id2 == old(self).ents@[i as int].ids@[j as int])
                    ==> #[trigger] final(self).main_slot(e2, id2) == old(self).main_slot(e2, id2),
            forall|e2: u64| #[trigger] final(self).alive(e2) == old(self).alive(e2),
            forall|e2: u64, id2: u64| #[trigger]
                final(self).toggle(e2, id2) == old(self).toggle(e2, id2),
            final(self).ctor_log() == old(self).ctor_log(),
            final(self).dtor_log() == (if old(self).main_slot(
                old(self).ents@[i as int].id,
                old(self).ents@[i as int].ids@[j as int],
            ) == Some(Some(old(self).ents@[i as int].cells@[j as int] ->Some_0)) {
                old(self).dtor_log().push(
                    (old(self).ents@[i as int].id, old(self).ents@[i as int].ids@[j as int]),
                )
            } else {
                old(self).dtor_log()
            }),
            old(self).ents@[i as int].cells@[j as int] is Some <==> old(self).main_slot(
                old(self).ents@[i as int].id,
                old(self).ents@[i as int].ids@[j as int],
            ) matches Some(Some(_)),
            final(self).mods() == old(self).mods(),
            final(self).queue() == old(self).queue(),
            final(self).is_def() == old(self).is_def(),
            final(self).with_id() == old(self).with_id(),
            final(self).scope_id() == old(self).scope_id(),
            forall|e2: u64, id2: u64| #[trigger]
                final(self).place_slot(e2, id2) == old(self).place_slot(e2, id2),
            forall|e2: u64, id2: u64| #[trigger]
                final(self).staged_live(e2, id2) == old(self).staged_live(e2, id2),
            final(self).ents@.len() == old(self).ents@.len(),
            final(self).ents@[i as int].ids@ == old(self).ents@[i as int].ids@.remove(j as int),
            final(self).ents@[i as int].id == old(self).ents@[i as int].id,
    {
        proof {
            assert(World::rec_wf(self.ents@[i as int]));
            lemma_ent_at(self.ents@, i as int);
            lemma_assoc_at(self.ents@[i as int].ids@, self.ents@[i as int].cells@, j as int);
            lemma_assoc_remove(self.ents@[i as int].ids@, self.ents@[i as int].cells@, j as int);
        }
        let e = self.ents[i].id;
        let cid = self.ents[i].ids[j];
        let cell = self.ents[i].cells[j];
        if cell.is_some() {
            self.dtor_events.push((e, cid));
        }
        let row = &mut self.ents[i];
        row.ids.remove(j);
        row.cells.remove(j);
        row.gen = if row.gen == u64::MAX {
            0
        } else {
            row.gen + 1
        };
        proof {
            let a = *old(self);
            let b = *self;
            let keys = a.ents@[i as int].ids@;
            assert(distinct_keys(b.ents@[i as int].ids@)) by {
                assert(b.ents@[i as int].ids@ == keys.remove(j as int));
                assert forall|x: int, y: int|
                    0 <= x < y < keys.remove(j as int).len() implies keys.remove(j as int)[x]
                    != keys.remove(j as int)[y] by {
                    let xx = if x < j { x } else { x + 1 };
                    let yy = if y < j { y } else { y + 1 };
                    assert(keys.remove(j as int)[x] == keys[xx]);
                    assert(keys.remove(j as int)[y] == keys[yy]);
                }
            }
            lemma_rec_replace(a, b, i as int);
        }
    }
}

} // verus!

verus! {

impl<V: Copy> World<V> {
    /// Apply a pattern remove to main storage: every column whose id
    /// matches the pattern is removed, its value destroyed if constructed.
    fn remove_now(&mut self, e: u64, pattern: u64)
        requires
            old(self).structs_ok(),
            old(self).alive(e),
        ensures
            final(self).structs_ok(),
            forall|id2: u64| #[trigger]
                final(self).main_slot(e, id2) == (if spec_id_matches(id2, pattern) {
                    None::<Option<V>>
                } else {
                    old(self).main_slot(e, id2)
                }),
            forall|e2: u64, id2: u64|
                e2 != e ==> #[trigger] final(self).main_slot(e2, id2) == old(self).main_slot(
                    e2,
                    id2,
                ),
            forall|e2: u64| #[trigger] final(self).alive(e2) == old(self).alive(e2),
            forall|e2: u64, id2: u64| #[trigger]
                final(self).toggle(e2, id2) == old(self).toggle(e2, id2),
            final(self).ctor_log() == old(self).ctor_log(),
            final(self).mods() == old(self).mods(),
            final(self).queue() == old(self).queue(),
            final(self).is_def() == old(self).is_def(),
            final(self).with_id() == old(self).with_id(),
            final(self).scope_id() == old(self).scope_id(),
            forall|id2: u64| #[trigger]
                count_at(final(self).dtor_log(), e, id2) == count_at(old(self).dtor_log(), e, id2)
                    + (if spec_id_matches(id2, pattern) {
                    old(self).main_live(e, id2)
                } else {
                    0nat
                }),
            forall|e2: u64, id2: u64|
                e2 != e ==> #[trigger] count_at(final(self).dtor_log(), e2, id2) == count_at(
                    old(self).dtor_log(),
                    e2,
                    id2,
                ),
            forall|e2: u64, id2: u64| #[trigger]
                final(self).place_slot(e2, id2) == old(self).place_slot(e2, id2),
            forall|e2: u64, id2: u64| #[trigger]
                final(self).staged_live(e2, id2) == old(self).staged_live(e2, id2),
    {
        let i = self.find_ent_idx_s(e);
        let mut done = false;
        while !done
            invariant
                self.structs_ok(),
                i < self.ents@.len(),
                self.ents@[i as int].id == e,
                forall|e2: u64, id2: u64|
                    e2 != e ==> #[trigger] self.main_slot(e2, id2) == old(self).main_slot(
                        e2,
                        id2,
                    ),
                forall|e2: u64| #[trigger] self.alive(e2) == old(self).alive(e2),
                forall|e2: u64, id2: u64| #[trigger]
                    self.toggle(e2, id2) == old(self).toggle(e2, id2),
                self.ctor_log() == old(self).ctor_log(),
                self.mods() == old(self).mods(),
                self.queue() == old(self).queue(),
                self.is_def() == old(self).is_def(),
                self.with_id() == old(self).with_id(),
                self.scope_id() == old(self).scope_id(),
                forall|e2: u64, id2: u64|
                    e2 != e ==> #[trigger] count_at(self.dtor_log(), e2, id2) == count_at(
                        old(self).dtor_log(),
                        e2,
                        id2,
                    ),
                forall|e2: u64, id2: u64| #[trigger]
                    self.place_slot(e2, id2) == old(self).place_slot(e2, id2),
                forall|e2: u64, id2: u64| #[trigger]
                    self.staged_live(e2, id2) == old(self).staged_live(e2, id2),
                forall|id2: u64|
                    !spec_id_matches(id2, pattern) ==> #[trigger] self.main_slot(e, id2) == old(
                        self,
                    ).main_slot(e, id2) && count_at(self.dtor_log(), e, id2) == count_at(
                        old(self).dtor_log(),
                        e,
                        id2,
                    ),
                forall|id2: u64|
                    spec_id_matches(id2, pattern) ==> ((#[trigger] self.main_slot(e, id2) == old(
                        self,
                    ).main_slot(e, id2) && count_at(self.dtor_log(), e, id2) == count_at(
                        old(self).dtor_log(),
                        e,
                        id2,
                    )) || (self.main_slot(e, id2) is None && count_at(self.dtor_log(), e, id2)
                        == count_at(old(self).dtor_log(), e, id2) + old(self).main_live(e, id2))),
                done ==> forall|k: int|
                    0 <= k < self.ents@[i as int].ids@.len() ==> !spec_id_matches(
                        #[trigger] self.ents@[i as int].ids@[k],
                        pattern,
                    ),
            decreases self.ents@[i as int].ids@.len(), (if done { 0int } else { 1int }),
        {
            match self.scan_match(i, pattern) {
                None => {
                    done = true;
                },
                Some(j) => {
                    let ghost pre = *self;
                    let ghost cid = self.ents@[i as int].ids@[j as int];
                    proof {
                        assert(World::rec_wf(self.ents@[i as int]));
                        lemma_ent_at(self.ents@, i as int);
                        lemma_assoc_at(
                            self.ents@[i as int].ids@,
                            self.ents@[i as int].cells@,
                            j as int,
                        );
                    }
                    self.remove_col(i, j);
                    proof {
                        lemma_count_push(pre.dtor_log(), (e, cid));
                        assert(pre.main_slot(e, cid) == Some(pre.ents@[i as int].cells@[j as int]));
                        assert(spec_id_matches(cid, pattern));
                        assert(pre.main_slot(e, cid) == old(self).main_slot(e, cid));
                        assert(old(self).main_live(e, cid) == (if pre.ents@[i as int].cells@[j as int]
                            is Some {
                            1nat
                        } else {
                            0nat
                        }));
                    }
                },
            }
        }
        proof {
            assert(World::rec_wf(self.ents@[i as int]));
            lemma_ent_at(self.ents@, i as int);
            assert forall|id2: u64|
                spec_id_matches(id2, pattern) implies self.main_slot(e, id2) is None by {
                if self.main_slot(e, id2) is Some {
                    lemma_assoc_some_iff(
                        self.ents@[i as int].ids@,
                        self.ents@[i as int].cells@,
                        id2,
                    );
                    let k = choose|k: int|
                        0 <= k < self.ents@[i as int].ids@.len() && self.ents@[i as int].ids@[k]
                            == id2;
                    assert(!spec_id_matches(self.ents@[i as int].ids@[k], pattern));
                }
            }
        }
    }
}

} // verus!

verus! {

impl<V: Copy> World<V> {
    /// Add `id` to `e`: queued while deferred, applied at once otherwise.
    /// A new column starts with `init` (the component's default value, or
    /// `None` for a tag or a component without a default constructor); an
    /// add of a present id changes nothing.
    pub fn add(&mut self, e: u64, id: u64, init: Option<V>)
        requires
            old(self).wf(),
            old(self).alive(e),
        ensures
            final(self).wf(),
            frame_coord(*old(self), *final(self), e, id),
            final(self).mod_count(e, id) == old(self).mod_count(e, id),
            final(self).mods() == old(self).mods(),
            if old(self).is_def() {
                &&& final(self).queue() == old(self).queue().push(Cmd::AddCmd { entity: e, id, init })
                &&& final(self).ent_ids(e) == old(self).ent_ids(e)
                &&& final(self).main_slot(e, id) == old(self).main_slot(e, id)
                &&& final(self).place_slot(e, id) == old(self).place_slot(e, id)
                &&& final(self).staged_live(e, id) == old(self).staged_live(e, id)
                &&& final(self).ctors(e, id) == old(self).ctors(e, id)
                &&& final(self).dtors(e, id) == old(self).dtors(e, id)
            } else {
                &&& final(self).main_slot(e, id) == (if old(self).has(e, id) {
                    old(self).main_slot(e, id)
                } else {
                    Some(init)
                })
                &&& final(self).ent_ids(e) == (if old(self).has(e, id) {
                    old(self).ent_ids(e)
                } else {
                    old(self).ent_ids(e).push(id)
                })
                &&& final(self).ctors(e, id) == old(self).ctors(e, id) + (if !old(self).has(e, id)
                    && init is Some {
                    1nat
                } else {
                    0nat
                })
                &&& final(self).dtors(e, id) == old(self).dtors(e, id)
                &&& final(self).place_slot(e, id) == old(self).place_slot(e, id)
                &&& final(self).staged_live(e, id) == old(self).staged_live(e, id)
            },
    {
        if self.deferred {
            let c = Cmd::AddCmd { entity: e, id, init };
            proof {
                lemma_qlive_push(self.q@, c);
                lemma_place_push_other(self.q@, c);
            }
            self.q.push(c);
            proof {
                let a = *old(self);
                let b = *self;
                assert forall|e2: u64, id2: u64| #[trigger]
                    b.main_slot(e2, id2) == a.main_slot(e2, id2) by {
                    assert(b.ents@ == a.ents@);
                }
                assert forall|e2: u64, id2: u64| #[trigger]
                    b.toggle(e2, id2) == a.toggle(e2, id2) by {
                    assert(b.ents@ == a.ents@);
                }
                assert forall|e2: u64| #[trigger] b.alive(e2) == a.alive(e2) by {
                    assert(b.ents@ == a.ents@);
                }
                assert(b.ent_ids(e) == a.ent_ids(e)) by {
                    assert(b.ents@ == a.ents@);
                }
                assert forall|k: int|
                    0 <= k < b.q@.len() implies b.alive(World::cmd_entity(#[trigger] b.q@[k])) by {
                    if k < b.q@.len() - 1 {
                        assert(b.q@[k] == a.q@[k]);
                        assert(a.alive(World::cmd_entity(a.q@[k])));
                    } else {
                        assert(b.q@[k] == c);
                    }
                }
                assert forall|e2: u64, id2: u64|
                    (#[trigger] b.ctors(e2, id2)) == b.dtors(e2, id2) + b.main_live(e2, id2)
                        + b.staged_live(e2, id2) by {
                    assert(a.ctors(e2, id2) == a.dtors(e2, id2) + a.main_live(e2, id2)
                        + a.staged_live(e2, id2));
                    assert(b.main_slot(e2, id2) == a.main_slot(e2, id2));
                    assert(qlive(b.q@, e2, id2) == qlive(a.q@, e2, id2) + live1(c, e2, id2));
                }
            }
        } else {
            self.add_now(e, id, init);
            proof {
                let a = *old(self);
                let b = *self;
                if !a.has(e, id) && init is Some {
                    lemma_count_push(a.ctor_log(), (e, id));
                }
                lemma_balance_entity(a, b, e);
            }
        }
    }

    /// Remove every id of `e` matching `pattern`: queued while deferred,
    /// applied at once otherwise. Applying destroys each removed column's
    /// constructed value.
    pub fn remove(&mut self, e: u64, pattern: u64)
        requires
            old(self).wf(),
            old(self).alive(e),
        ensures
            final(self).wf(),
            frame_entity(*old(self), *final(self), e),
            final(self).mods() == old(self).mods(),
            final(self).ctor_log() == old(self).ctor_log(),
            if old(self).is_def() {
                &&& final(self).queue() == old(self).queue().push(Cmd::RemoveCmd { entity: e, pattern })
                &&& forall|id2: u64| #[trigger]
                    final(self).main_slot(e, id2) == old(self).main_slot(e, id2)
                &&& forall|id2: u64| #[trigger]
                    final(self).place_slot(e, id2) == old(self).place_slot(e, id2)
                &&& forall|id2: u64| #[trigger]
                    final(self).staged_live(e, id2) == old(self).staged_live(e, id2)
                &&& forall|id2: u64| #[trigger]
                    final(self).dtors(e, id2) == old(self).dtors(e, id2)
            } else {
                &&& forall|id2: u64| #[trigger]
                    final(self).main_slot(e, id2) == (if spec_id_matches(id2, pattern) {
                        None::<Option<V>>
                    } else {
                        old(self).main_slot(e, id2)
                    })
                &&& forall|id2: u64| #[trigger]
                    final(self).dtors(e, id2) == old(self).dtors(e, id2) + (if spec_id_matches(
                        id2,
                        pattern,
                    ) {
                        old(self).main_live(e, id2)
                    } else {
                        0nat
                    })
                &&& forall|id2: u64| #[trigger]
                    final(self).place_slot(e, id2) == old(self).place_slot(e, id2)
                &&& forall|id2: u64| #[trigger]
                    final(self).staged_live(e, id2) == old(self).staged_live(e, id2)
            },
    {
        if self.deferred {
            let c = Cmd::RemoveCmd { entity: e, pattern };
            proof {
                lemma_qlive_push(self.q@, c);
                lemma_place_push_other(self.q@, c);
            }
            self.q.push(c);
            proof {
                let a = *old(self);
                let b = *self;
                assert forall|e2: u64, id2: u64| #[trigger]
                    b.main_slot(e2, id2) == a.main_slot(e2, id2) by {
                    assert(b.ents@ == a.ents@);
                }
                assert forall|e2: u64, id2: u64| #[trigger]
                    b.toggle(e2, id2) == a.toggle(e2, id2) by {
                    assert(b.ents@ == a.ents@);
                }
                assert forall|e2: u64| #[trigger] b.alive(e2) == a.alive(e2) by {
                    assert(b.ents@ == a.ents@);
                }
                assert forall|k: int|
                    0 <= k < b.q@.len() implies b.alive(World::cmd_entity(#[trigger] b.q@[k])) by {
                    if k < b.q@.len() - 1 {
                        assert(b.q@[k] == a.q@[k]);
                        assert(a.alive(World::cmd_entity(a.q@[k])));
                    } else {
                        assert(b.q@[k] == c);
                    }
                }
                assert forall|e2: u64, id2: u64|
                    (#[trigger] b.ctors(e2, id2)) == b.dtors(e2, id2) + b.main_live(e2, id2)
                        + b.staged_live(e2, id2) by {
                    assert(a.ctors(e2, id2) == a.dtors(e2, id2) + a.main_live(e2, id2)
                        + a.staged_live(e2, id2));
                    assert(b.main_slot(e2, id2) == a.main_slot(e2, id2));
                    assert(qlive(b.q@, e2, id2) == qlive(a.q@, e2, id2) + live1(c, e2, id2));
                }
            }
        } else {
            self.remove_now(e, pattern);
            proof {
                lemma_balance_entity(*old(self), *self, e);
            }
        }
    }
}

} // verus!

verus! {

impl<V: Copy> World<V> {
    /// Remove all components from `e` without recycling the entity id:
    /// one removal with the plain wildcard, one with the wildcard pair.
    pub fn clear(&mut self, e: u64)
        requires
            old(self).wf(),
            old(self).alive(e),
        ensures
            final(self).wf(),
            frame_entity(*old(self), *final(self), e),
            final(self).mods() == old(self).mods(),
            final(self).ctor_log() == old(self).ctor_log(),
            if old(self).is_def() {
                &&& final(self).queue() == old(self).queue().push(
                    Cmd::RemoveCmd { entity: e, pattern: WILDCARD },
                ).push(Cmd::RemoveCmd { entity: e, pattern: crate::ids::spec_encode(WILDCARD, WILDCARD) })
                &&& forall|id2: u64| #[trigger]
                    final(self).main_slot(e, id2) == old(self).main_slot(e, id2)
                &&& forall|id2: u64| #[trigger]
                    final(self).dtors(e, id2) == old(self).dtors(e, id2)
                &&& forall|id2: u64| #[trigger]
                    final(self).place_slot(e, id2) == old(self).place_slot(e, id2)
                &&& forall|id2: u64| #[trigger]
                    final(self).staged_live(e, id2) == old(self).staged_live(e, id2)
            } else {
                &&& forall|id2: u64| #[trigger] final(self).main_slot(e, id2) is None
                &&& forall|id2: u64| #[trigger]
                    final(self).dtors(e, id2) == old(self).dtors(e, id2) + old(self).main_live(
                        e,
                        id2,
                    )
                &&& forall|id2: u64| #[trigger]
                    final(self).place_slot(e, id2) == old(self).place_slot(e, id2)
                &&& forall|id2: u64| #[trigger]
                    final(self).staged_live(e, id2) == old(self).staged_live(e, id2)
            },
    {
        proof {
            crate::ids::lemma_codec_roundtrip(WILDCARD, WILDCARD);
        }
        let pair_wild = crate::ids::encode(WILDCARD, WILDCARD);
        self.remove(e, WILDCARD);
        self.remove(e, pair_wild);
        proof {
            let a = *old(self);
            let b = *self;
            assert forall|id2: u64|
                (if crate::ids::spec_is_pair(id2) {
                    spec_id_matches(id2, crate::ids::spec_encode(WILDCARD, WILDCARD))
                        && !spec_id_matches(id2, WILDCARD)
                } else {
                    spec_id_matches(id2, WILDCARD) && !spec_id_matches(
                        id2,
                        crate::ids::spec_encode(WILDCARD, WILDCARD),
                    )
                }) by {
                crate::ids::lemma_plain_id_not_pair(WILDCARD);
                crate::ids::lemma_codec_roundtrip(WILDCARD, WILDCARD);
            }
            if !a.is_def() {
                assert forall|id2: u64| #[trigger] b.main_slot(e, id2) is None by {
                    if crate::ids::spec_is_pair(id2) {
                        assert(spec_id_matches(id2, crate::ids::spec_encode(WILDCARD, WILDCARD)));
                    } else {
                        assert(spec_id_matches(id2, WILDCARD));
                    }
                }
            }
        }
    }

    /// Delete `e`: destroy its remaining values, drop its storage row.
    pub fn destruct(&mut self, e: u64)
        requires
            old(self).wf(),
            old(self).alive(e),
            !old(self).is_def(),
        ensures
            final(self).wf(),
            !final(self).alive(e),
            forall|e2: u64| e2 != e ==> #[trigger] final(self).alive(e2) == old(self).alive(e2),
            forall|e2: u64, id2: u64|
                e2 != e ==> #[trigger] final(self).main_slot(e2, id2) == old(self).main_slot(
                    e2,
                    id2,
                ),
            forall|e2: u64, id2: u64|
                e2 != e ==> #[trigger] final(self).toggle(e2, id2) == old(self).toggle(e2, id2),
            forall|id2: u64| #[trigger] final(self).main_slot(e, id2) is None,
            forall|id2: u64| #[trigger] final(self).toggle(e, id2) is None,
            forall|id2: u64| #[trigger]
                final(self).dtors(e, id2) == old(self).dtors(e, id2) + old(self).main_live(
                    e,
                    id2,
                ),
            forall|e2: u64, id2: u64|
                e2 != e ==> #[trigger] final(self).dtors(e2, id2) == old(self).dtors(e2, id2),
            final(self).ctor_log() == old(self).ctor_log(),
            final(self).mods() == old(self).mods(),
            final(self).queue() == old(self).queue(),
            final(self).is_def() == old(self).is_def(),
            final(self).with_id() == old(self).with_id(),
            final(self).scope_id() == old(self).scope_id(),
    {
        self.clear(e);
        let i = self.find_ent_idx_s(e);
        proof {
            assert(World::rec_wf(self.ents@[i as int]));
            lemma_ent_at(self.ents@, i as int);
            if self.ents@[i as int].ids@.len() > 0 {
                lemma_assoc_at(self.ents@[i as int].ids@, self.ents@[i as int].cells@, 0);
                assert(self.main_slot(e, self.ents@[i as int].ids@[0]) is Some);
                assert(false);
            }
        }
        let ghost mid = *self;
        self.ents.remove(i);
        proof {
            let b = *self;
            assert forall|e2: u64| #[trigger]
                ent_assoc(b.ents@, e2) == (if e2 == e {
                    None::<EntityRec<V>>
                } else {
                    ent_assoc(mid.ents@, e2)
                }) by {
                lemma_ent_remove_key(mid.ents@, i as int, e2);
            }
            assert forall|e2: u64| #[trigger]
                b.alive(e2) == (if e2 == e {
                    false
                } else {
                    mid.alive(e2)
                }) by {
                assert(ent_assoc(b.ents@, e2) == (if e2 == e {
                    None::<EntityRec<V>>
                } else {
                    ent_assoc(mid.ents@, e2)
                }));
            }
            assert forall|e2: u64| e2 != e implies #[trigger] b.alive(e2) == old(self).alive(
                e2,
            ) by {
                assert(b.alive(e2) == mid.alive(e2));
                assert(mid.alive(e2) == old(self).alive(e2));
            }
            assert forall|e2: u64, id2: u64|
                e2 != e implies #[trigger] b.main_slot(e2, id2) == old(self).main_slot(
                e2,
                id2,
            ) by {
                assert(ent_assoc(b.ents@, e2) == ent_assoc(mid.ents@, e2));
                assert(b.main_slot(e2, id2) == mid.main_slot(e2, id2));
                assert(mid.main_slot(e2, id2) == old(self).main_slot(e2, id2));
            }
            assert forall|e2: u64, id2: u64|
                e2 != e implies #[trigger] b.toggle(e2, id2) == old(self).toggle(e2, id2) by {
                assert(ent_assoc(b.ents@, e2) == ent_assoc(mid.ents@, e2));
                assert(b.toggle(e2, id2) == mid.toggle(e2, id2));
                assert(mid.toggle(e2, id2) == old(self).toggle(e2, id2));
            }
            assert forall|id2: u64| #[trigger]
                b.dtors(e, id2) == old(self).dtors(e, id2) + old(self).main_live(e, id2) by {
                assert(b.dtor_log() == mid.dtor_log());
                assert(mid.dtors(e, id2) == old(self).dtors(e, id2) + old(self).main_live(
                    e,
                    id2,
                ));
            }
            assert forall|e2: u64, id2: u64|
                e2 != e implies #[trigger] b.dtors(e2, id2) == old(self).dtors(e2, id2) by {
                assert(b.dtor_log() == mid.dtor_log());
                assert(mid.dtors(e2, id2) == old(self).dtors(e2, id2));
            }
            assert(distinct_ents(b.ents@)) by {
                let keys = mid.ents@;
                assert forall|x: int, y: int|
                    0 <= x < y < keys.remove(i as int).len() implies keys.remove(i as int)[x].id
                    != keys.remove(i as int)[y].id by {
                    let xx = if x < i as int {
                        x
                    } else {
                        x + 1
                    };
                    let yy = if y < i as int {
                        y
                    } else {
                        y + 1
                    };
                    assert(keys.remove(i as int)[x] == keys[xx]);
                    assert(keys.remove(i as int)[y] == keys[yy]);
                }
            }
            assert forall|k: int|
                0 <= k < b.ents@.len() implies World::rec_wf(#[trigger] b.ents@[k]) by {
                let kk = if k < i as int {
                    k
                } else {
                    k + 1
                };
                assert(b.ents@[k] == mid.ents@[kk]);
                assert(World::rec_wf(mid.ents@[kk]));
            }
            assert(b.q@.len() == 0);
            assert forall|e2: u64, id2: u64|
                (#[trigger] b.ctors(e2, id2)) == b.dtors(e2, id2) + b.main_live(e2, id2)
                    + b.staged_live(e2, id2) by {
                assert(mid.ctors(e2, id2) == mid.dtors(e2, id2) + mid.main_live(e2, id2)
                    + mid.staged_live(e2, id2));
                if e2 == e {
                    assert(mid.main_slot(e2, id2) is None);
                    assert(b.main_slot(e2, id2) is None);
                } else {
                    assert(b.main_slot(e2, id2) == mid.main_slot(e2, id2));
                }
            }
        }
    }

    /// Set the enable/disable toggle bit for `(e, id)`; the bitset column
    /// is created the first time the id is toggled. Toggle bits are
    /// applied immediately in both regimes: they are not structural, so
    /// the deferred queue does not buffer them in this model.
    pub fn enable_id(&mut self, e: u64, id: u64, on: bool)
        requires
            old(self).wf(),
            old(self).alive(e),
        ensures
            final(self).wf(),
            final(self).toggle(e, id) == Some(on),
            forall|e2: u64, id2: u64|
                !(e2 == e && id2 == id) ==> #[trigger] final(self).toggle(e2, id2) == old(
                    self,
                ).toggle(e2, id2),
            forall|e2: u64| #[trigger] final(self).alive(e2) == old(self).alive(e2),
            forall|e2: u64, id2: u64| #[trigger]
                final(self).main_slot(e2, id2) == old(self).main_slot(e2, id2),
            final(self).ctor_log() == old(self).ctor_log(),
            final(self).dtor_log() == old(self).dtor_log(),
            final(self).mods() == old(self).mods(),
            final(self).queue() == old(self).queue(),
            final(self).is_def() == old(self).is_def(),
            final(self).with_id() == old(self).with_id(),
            final(self).scope_id() == old(self).scope_id(),
    {
        let i = self.find_ent_idx_s(e);
        proof {
            assert(World::rec_wf(self.ents@[i as int]));
            lemma_ent_at(self.ents@, i as int);
        }
        let row = &self.ents[i];
        let found = find_col(&row.tg_ids, id);
        match found {
            Some(j) => {
                proof {
                    lemma_assoc_update(
                        self.ents@[i as int].tg_ids@,
                        self.ents@[i as int].tg_on@,
                        j as int,
                        on,
                    );
                }
                let row = &mut self.ents[i];
                row.tg_on[j] = on;
            },
            None => {
                proof {
                    lemma_assoc_push(
                        self.ents@[i as int].tg_ids@,
                        self.ents@[i as int].tg_on@,
                        id,
                        on,
                    );
                }
                let row = &mut self.ents[i];
                row.tg_ids.push(id);
                row.tg_on.push(on);
            },
        }
        proof {
            let a = *old(self);
            let b = *self;
            if found is None {
                let keys = a.ents@[i as int].tg_ids@;
                assert(distinct_keys(b.ents@[i as int].tg_ids@)) by {
                    assert(b.ents@[i as int].tg_ids@ =~= keys.push(id));
                    assert(!keys.contains(id));
                    assert forall|x: int, y: int|
                        0 <= x < y < keys.push(id).len() implies keys.push(id)[x] != keys.push(
                        id,
                    )[y] by {
                        if y == keys.len() as int {
                            assert(keys.push(id)[x] == keys[x]);
                            assert(keys[x] != id) by {
                                if keys[x] == id {
                                    assert(keys.contains(id));
                                }
                            }
                        }
                    }
                }
            }
            lemma_rec_replace(a, b, i as int);
            assert forall|e2: u64, id2: u64|
                (#[trigger] b.ctors(e2, id2)) == b.dtors(e2, id2) + b.main_live(e2, id2)
                    + b.staged_live(e2, id2) by {
                assert(a.ctors(e2, id2) == a.dtors(e2, id2) + a.main_live(e2, id2)
                    + a.staged_live(e2, id2));
                if e2 == a.ents@[i as int].id {
                    assert(b.main_slot(e2, id2) == assoc(
                        b.ents@[i as int].ids@,
                        b.ents@[i as int].cells@,
                        id2,
                    ));
                    assert(a.main_slot(e2, id2) == assoc(
                        a.ents@[i as int].ids@,
                        a.ents@[i as int].cells@,
                        id2,
                    ));
                } else {
                    assert(b.main_slot(e2, id2) == a.main_slot(e2, id2));
                }
            }
        }
    }
}

} // verus!

verus! {

impl<V: Copy> World<V> {
    /// Overwrite the main-storage cell of a present id (not structural:
    /// the column set and the generation stamp are untouched).
    fn set_cell_now(&mut self, e: u64, id: u64, c: Option<V>)
        requires
            old(self).structs_ok(),
            old(self).alive(e),
            old(self).has(e, id),
        ensures
            final(self).structs_ok(),
            final(self).main_slot(e, id) == Some(c),
            forall|e2: u64, id2: u64|
                !(e2 == e && id2 == id) ==> #[trigger] final(self).main_slot(e2, id2) == old(
                    self,
                ).main_slot(e2, id2),
            forall|e2: u64| #[trigger] final(self).alive(e2) == old(self).alive(e2),
            forall|e2: u64, id2: u64| #[trigger]
                final(self).toggle(e2, id2) == old(self).toggle(e2, id2),
            final(self).ctor_log() == old(self).ctor_log(),
            final(self).dtor_log() == old(self).dtor_log(),
            final(self).mods() == old(self).mods(),
            final(self).queue() == old(self).queue(),
            final(self).is_def() == old(self).is_def(),
            final(self).with_id() == old(self).with_id(),
            final(self).scope_id() == old(self).scope_id(),
            forall|e2: u64, id2: u64| #[trigger]
                final(self).place_slot(e2, id2) == old(self).place_slot(e2, id2),
            forall|e2: u64, id2: u64| #[trigger]
                final(self).staged_live(e2, id2) == old(self).staged_live(e2, id2),
    {
        let i = self.find_ent_idx_s(e);
        proof {
            assert(World::rec_wf(self.ents@[i as int]));
            lemma_ent_at(self.ents@, i as int);
            lemma_assoc_some_iff(self.ents@[i as int].ids@, self.ents@[i as int].cells@, id);
        }
        let row = &self.ents[i];
        match find_col(&row.ids, id) {
            Some(j) => {
                proof {
                    lemma_assoc_update(
                        self.ents@[i as int].ids@,
                        self.ents@[i as int].cells@,
                        j as int,
                        c,
                    );
                }
                let row = &mut self.ents[i];
                row.cells[j] = c;
                proof {
                    lemma_rec_replace(*old(self), *self, i as int);
                }
            },
            None => {
                proof {
                    assert(false);
                }
            },
        }
    }

    /// Append a fresh column to a row (structural: bumps the generation).
    /// The initial cell is taken as already accounted for by the caller.
    fn push_col(&mut self, e: u64, id: u64, c: Option<V>)
        requires
            old(self).structs_ok(),
            old(self).alive(e),
            !old(self).has(e, id),
        ensures
            final(self).structs_ok(),
            final(self).main_slot(e, id) == Some(c),
            forall|e2: u64, id2: u64|
                !(e2 == e && id2 == id) ==> #[trigger] final(self).main_slot(e2, id2) == old(
                    self,
                ).main_slot(e2, id2),
            forall|e2: u64| #[trigger] final(self).alive(e2) == old(self).alive(e2),
            forall|e2: u64, id2: u64| #[trigger]
                final(self).toggle(e2, id2) == old(self).toggle(e2, id2),
            final(self).ctor_log() == old(self).ctor_log(),
            final(self).dtor_log() == old(self).dtor_log(),
            final(self).mods() == old(self).mods(),
            final(self).queue() == old(self).queue(),
            final(self).is_def() == old(self).is_def(),
            final(self).with_id() == old(self).with_id(),
            final(self).scope_id() == old(self).scope_id(),
            forall|e2: u64, id2: u64| #[trigger]
                final(self).place_slot(e2, id2) == old(self).place_slot(e2, id2),
            forall|e2: u64, id2: u64| #[trigger]
                final(self).staged_live(e2, id2) == old(self).staged_live(e2, id2),
    {
        let i = self.find_ent_idx_s(e);
        proof {
            assert(World::rec_wf(self.ents@[i as int]));
            lemma_ent_at(self.ents@, i as int);
            lemma_assoc_some_iff(self.ents@[i as int].ids@, self.ents@[i as int].cells@, id);
            lemma_assoc_push(self.ents@[i as int].ids@, self.ents@[i as int].cells@, id, c);
        }
        let row = &mut self.ents[i];
        row.ids.push(id);
        row.cells.push(c);
        row.gen = if row.gen == u64::MAX {
            0
        } else {
            row.gen + 1
        };
        proof {
            let a = *old(self);
            let b = *self;
            let keys = a.ents@[i as int].ids@;
            assert(distinct_keys(b.ents@[i as int].ids@)) by {
                assert(b.ents@[i as int].ids@ =~= keys.push(id));
                assert(!keys.contains(id));
                assert forall|x: int, y: int|
                    0 <= x < y < keys.push(id).len() implies keys.push(id)[x] != keys.push(
                    id,
                )[y] by {
                    if y == keys.len() as int {
                        assert(keys.push(id)[x] == keys[x]);
                        assert(keys[x] != id) by {
                            if keys[x] == id {
                                assert(keys.contains(id));
                            }
                        }
                    }
                }
            }
            lemma_rec_replace(a, b, i as int);
        }
    }

    /// Set the cell a value write targets right now: the latest staged
    /// cell while deferred, the main-storage cell otherwise. Returns the
    /// cell's previous content. Raises no events.
    fn region_set(&mut self, e: u64, id: u64, c: Option<V>) -> (was: Option<V>)
        requires
            old(self).structs_ok(),
            old(self).alive(e),
            old(self).region_slot(e, id) is Some,
            claimed_tail(*old(self), e, id),
        ensures
            final(self).structs_ok(),
            Some(was) == old(self).region_slot(e, id),
            final(self).region_slot(e, id) == Some(c),
            region_queue_after(*old(self), *final(self), e, id, c),
            claimed_tail(*final(self), e, id),
            if old(self).is_def() {
                &&& final(self).main_slot(e, id) == old(self).main_slot(e, id)
                &&& final(self).place_slot(e, id) == Some(c)
                &&& final(self).staged_live(e, id) + (if was is Some {
                    1nat
                } else {
                    0nat
                }) == old(self).staged_live(e, id) + (if c is Some {
                    1nat
                } else {
                    0nat
                })
            } else {
                &&& final(self).main_slot(e, id) == Some(c)
                &&& final(self).place_slot(e, id) == old(self).place_slot(e, id)
                &&& final(self).staged_live(e, id) == old(self).staged_live(e, id)
            },
            forall|e2: u64, id2: u64|
                !(e2 == e && id2 == id) ==> #[trigger] final(self).main_slot(e2, id2) == old(
                    self,
                ).main_slot(e2, id2),
            forall|e2: u64, id2: u64|
                !(e2 == e && id2 == id) ==> #[trigger] final(self).place_slot(e2, id2) == old(
                    self,
                ).place_slot(e2, id2),
            forall|e2: u64, id2: u64|
                !(e2 == e && id2 == id) ==> #[trigger] final(self).staged_live(e2, id2) == old(
                    self,
                ).staged_live(e2, id2),
            forall|e2: u64| #[trigger] final(self).alive(e2) == old(self).alive(e2),
            forall|e2: u64, id2: u64| #[trigger]
                final(self).toggle(e2, id2) == old(self).toggle(e2, id2),
            final(self).ctor_log() == old(self).ctor_log(),
            final(self).dtor_log() == old(self).dtor_log(),
            final(self).mods() == old(self).mods(),
            final(self).is_def() == old(self).is_def(),
            final(self).with_id() == old(self).with_id(),
            final(self).scope_id() == old(self).scope_id(),
    {
        if self.deferred {
            let j = self.q.len() - 1;
            let cell: Option<V> = match &self.q[j] {
                Cmd::PlaceCmd { cell, .. } => *cell,
                _ => {
                    proof {
                        assert(false);
                    }
                    None
                },
            };
            let newcmd = Cmd::PlaceCmd { entity: e, id, cell: c };
            proof {
                assert(self.q@[j as int] == Cmd::PlaceCmd { entity: e, id, cell });
                assert(place_assoc(self.q@, e, id) == Some(cell));
                lemma_qlive_update(self.q@, j as int, newcmd);
            }
            self.q[j] = newcmd;
            proof {
                let a = *old(self);
                let b = *self;
                assert(b.q@ == a.q@.update(j as int, newcmd));
                assert(b.q@.drop_last() =~= a.q@.drop_last());
                assert(b.q@[b.q@.len() - 1] == newcmd);
                assert forall|e2: u64, id2: u64|
                    !(e2 == e && id2 == id) implies #[trigger] b.place_slot(e2, id2)
                    == a.place_slot(e2, id2) by {
                    assert(place_assoc(b.q@, e2, id2) == place_assoc(b.q@.drop_last(), e2, id2));
                    assert(place_assoc(a.q@, e2, id2) == place_assoc(a.q@.drop_last(), e2, id2));
                }
                assert forall|e2: u64, id2: u64| #[trigger]
                    b.main_slot(e2, id2) == a.main_slot(e2, id2) by {
                    assert(b.ents@ == a.ents@);
                }
                assert forall|e2: u64, id2: u64| #[trigger]
                    b.toggle(e2, id2) == a.toggle(e2, id2) by {
                    assert(b.ents@ == a.ents@);
                }
                assert forall|e2: u64| #[trigger] b.alive(e2) == a.alive(e2) by {
                    assert(b.ents@ == a.ents@);
                }
                assert forall|k: int|
                    0 <= k < b.q@.len() implies b.alive(
                    World::cmd_entity(#[trigger] b.q@[k]),
                ) by {
                    if k != j as int {
                        assert(b.q@[k] == a.q@[k]);
                    }
                    assert(a.alive(World::cmd_entity(a.q@[k])));
                }
            }
            cell
        } else {
            let was = self.get_value_s(e, id);
            self.set_cell_now(e, id, c);
            was
        }
    }

    fn get_value_s(&self, e: u64, id: u64) -> (r: Option<V>)
        requires
            self.structs_ok(),
            self.alive(e),
        ensures
            r == self.value(e, id),
    {
        let i = self.find_ent_idx_s(e);
        let row = &self.ents[i];
        proof {
            assert(World::rec_wf(self.ents@[i as int]));
            lemma_ent_at(self.ents@, i as int);
        }
        match find_col(&row.ids, id) {
            None => {
                proof {
                    lemma_assoc_some_iff(row.ids@, row.cells@, id);
                }
                None
            },
            Some(j) => {
                proof {
                    lemma_assoc_at(row.ids@, row.cells@, j as int);
                }
                row.cells[j]
            },
        }
    }

    /// Signal that `(e, id)` was modified (notifications, cache
    /// invalidation).
    pub fn mark_modified(&mut self, e: u64, id: u64)
        requires
            old(self).wf(),
        ensures
            final(self).wf(),
            final(self).mods() == old(self).mods().push((e, id)),
            final(self).mod_count(e, id) == old(self).mod_count(e, id) + 1,
            forall|e2: u64, id2: u64|
                !(e2 == e && id2 == id) ==> #[trigger] final(self).mod_count(e2, id2) == old(
                    self,
                ).mod_count(e2, id2),
            forall|e2: u64| #[trigger] final(self).alive(e2) == old(self).alive(e2),
            forall|e2: u64, id2: u64| #[trigger]
                final(self).main_slot(e2, id2) == old(self).main_slot(e2, id2),
            forall|e2: u64, id2: u64| #[trigger]
                final(self).toggle(e2, id2) == old(self).toggle(e2, id2),
            forall|e2: u64, id2: u64| #[trigger]
                final(self).place_slot(e2, id2) == old(self).place_slot(e2, id2),
            forall|e2: u64, id2: u64| #[trigger]
                final(self).staged_live(e2, id2) == old(self).staged_live(e2, id2),
            forall|e2: u64, id2: u64| #[trigger]
                final(self).ctors(e2, id2) == old(self).ctors(e2, id2),
            forall|e2: u64, id2: u64| #[trigger]
                final(self).dtors(e2, id2) == old(self).dtors(e2, id2),
            final(self).ctor_log() == old(self).ctor_log(),
            final(self).dtor_log() == old(self).dtor_log(),
            final(self).queue() == old(self).queue(),
            final(self).is_def() == old(self).is_def(),
            final(self).with_id() == old(self).with_id(),
            final(self).scope_id() == old(self).scope_id(),
    {
        self.mod_log.push((e, id));
        proof {
            lemma_count_push(old(self).mods(), (e, id));
            lemma_same_fields_wf(*old(self), *self);
            assert(self.q@ == old(self).q@);
        }
    }
}

} // verus!

verus! {

proof fn lemma_ctor_push<V: Copy>(mid: World<V>, b: World<V>, e: u64, id: u64)
    requires
        b.ents == mid.ents,
        b.q == mid.q,
        b.mod_log == mid.mod_log,
        b.dtor_events == mid.dtor_events,
        b.ctor_events@ == mid.ctor_events@.push((e, id)),
        b.deferred == mid.deferred,
        b.with_ctx == mid.with_ctx,
        b.scope_ctx == mid.scope_ctx,
    ensures
        forall|e2: u64| #[trigger] b.alive(e2) == mid.alive(e2),
        forall|e2: u64, id2: u64| #[trigger] b.main_slot(e2, id2) == mid.main_slot(e2, id2),
        forall|e2: u64, id2: u64| #[trigger] b.toggle(e2, id2) == mid.toggle(e2, id2),
        forall|e2: u64, id2: u64| #[trigger] b.place_slot(e2, id2) == mid.place_slot(e2, id2),
        forall|e2: u64, id2: u64| #[trigger] b.staged_live(e2, id2) == mid.staged_live(e2, id2),
        b.queue() == mid.queue(),
        b.mods() == mid.mods(),
        b.dtor_log() == mid.dtor_log(),
        b.ctors(e, id) == mid.ctors(e, id) + 1,
        forall|e2: u64, id2: u64|
            !(e2 == e && id2 == id) ==> #[trigger] b.ctors(e2, id2) == mid.ctors(e2, id2),
        b.is_def() == mid.is_def(),
        b.with_id() == mid.with_id(),
        b.scope_id() == mid.scope_id(),
        b.structs_ok() == mid.structs_ok(),
{
    lemma_count_push(mid.ctor_log(), (e, id));
    assert forall|e2: u64| #[trigger] b.alive(e2) == mid.alive(e2) by {
        assert(b.ents@ == mid.ents@);
    }
    assert forall|e2: u64, id2: u64| #[trigger] b.main_slot(e2, id2) == mid.main_slot(e2, id2) by {
        assert(b.ents@ == mid.ents@);
    }
    assert forall|e2: u64, id2: u64| #[trigger] b.toggle(e2, id2) == mid.toggle(e2, id2) by {
        assert(b.ents@ == mid.ents@);
    }
    assert(b.q@ == mid.q@);
}

proof fn lemma_dtor_push<V: Copy>(mid: World<V>, b: World<V>, e: u64, id: u64)
    requires
        b.ents == mid.ents,
        b.q == mid.q,
        b.mod_log == mid.mod_log,
        b.ctor_events == mid.ctor_events,
        b.dtor_events@ == mid.dtor_events@.push((e, id)),
        b.deferred == mid.deferred,
        b.with_ctx == mid.with_ctx,
        b.scope_ctx == mid.scope_ctx,
    ensures
        forall|e2: u64| #[trigger] b.alive(e2) == mid.alive(e2),
        forall|e2: u64, id2: u64| #[trigger] b.main_slot(e2, id2) == mid.main_slot(e2, id2),
        forall|e2: u64, id2: u64| #[trigger] b.toggle(e2, id2) == mid.toggle(e2, id2),
        forall|e2: u64, id2: u64| #[trigger] b.place_slot(e2, id2) == mid.place_slot(e2, id2),
        forall|e2: u64, id2: u64| #[trigger] b.staged_live(e2, id2) == mid.staged_live(e2, id2),
        b.queue() == mid.queue(),
        b.mods() == mid.mods(),
        b.ctor_log() == mid.ctor_log(),
        b.dtors(e, id) == mid.dtors(e, id) + 1,
        forall|e2: u64, id2: u64|
            !(e2 == e && id2 == id) ==> #[trigger] b.dtors(e2, id2) == mid.dtors(e2, id2),
        b.is_def() == mid.is_def(),
        b.with_id() == mid.with_id(),
        b.scope_id() == mid.scope_id(),
        b.structs_ok() == mid.structs_ok(),
{
    lemma_count_push(mid.dtor_log(), (e, id));
    assert forall|e2: u64| #[trigger] b.alive(e2) == mid.alive(e2) by {
        assert(b.ents@ == mid.ents@);
    }
    assert forall|e2: u64, id2: u64| #[trigger] b.main_slot(e2, id2) == mid.main_slot(e2, id2) by {
        assert(b.ents@ == mid.ents@);
    }
    assert forall|e2: u64, id2: u64| #[trigger] b.toggle(e2, id2) == mid.toggle(e2, id2) by {
        assert(b.ents@ == mid.ents@);
    }
    assert(b.q@ == mid.q@);
}

impl<V: Copy> World<V> {
    /// Destroy the constructed value in the current write region of
    /// `(e, id)`. The precondition demands a constructed value: this
    /// operation can never target unconstructed memory.
    pub fn destroy_at(&mut self, e: u64, id: u64)
        requires
            old(self).wf(),
            old(self).alive(e),
            old(self).region_value(e, id) is Some,
            claimed_tail(*old(self), e, id),
        ensures
            final(self).wf(),
            frame_coord(*old(self), *final(self), e, id),
            final(self).mods() == old(self).mods(),
            final(self).mod_count(e, id) == old(self).mod_count(e, id),
            region_queue_after(*old(self), *final(self), e, id, None::<V>),
            claimed_tail(*final(self), e, id),
            final(self).region_slot(e, id) == Some(None::<V>),
            final(self).main_slot(e, id) == (if old(self).is_def() {
                old(self).main_slot(e, id)
            } else {
                Some(None::<V>)
            }),
            final(self).place_slot(e, id) == (if old(self).is_def() {
                Some(None::<V>)
            } else {
                old(self).place_slot(e, id)
            }),
            final(self).dtors(e, id) == old(self).dtors(e, id) + 1,
            final(self).ctors(e, id) == old(self).ctors(e, id),
    {
        let _was = self.region_set(e, id, None);
        let ghost mid = *self;
        self.dtor_events.push((e, id));
        proof {
            let a = *old(self);
            let b = *self;
            lemma_dtor_push(mid, b, e, id);
            lemma_balance_entity(a, b, e);
        }
    }

    /// Construct `v` in the (existing, unconstructed) write-region cell of
    /// `(e, id)`.
    pub fn write_at(&mut self, e: u64, id: u64, v: V)
        requires
            old(self).wf(),
            old(self).alive(e),
            old(self).region_slot(e, id) == Some(None::<V>),
            claimed_tail(*old(self), e, id),
        ensures
            final(self).wf(),
            frame_coord(*old(self), *final(self), e, id),
            final(self).mods() == old(self).mods(),
            final(self).mod_count(e, id) == old(self).mod_count(e, id),
            region_queue_after(*old(self), *final(self), e, id, Some(v)),
            claimed_tail(*final(self), e, id),
            final(self).region_slot(e, id) == Some(Some(v)),
            final(self).main_slot(e, id) == (if old(self).is_def() {
                old(self).main_slot(e, id)
            } else {
                Some(Some(v))
            }),
            final(self).place_slot(e, id) == (if old(self).is_def() {
                Some(Some(v))
            } else {
                old(self).place_slot(e, id)
            }),
            final(self).ctors(e, id) == old(self).ctors(e, id) + 1,
            final(self).dtors(e, id) == old(self).dtors(e, id),
    {
        let _was = self.region_set(e, id, Some(v));
        let ghost mid = *self;
        self.ctor_events.push((e, id));
        proof {
            let a = *old(self);
            let b = *self;
            lemma_ctor_push(mid, b, e, id);
            lemma_balance_entity(a, b, e);
        }
    }

    /// Replace the constructed value in the write region of `(e, id)` by
    /// `v`, as mutation through a reference does: no construct or destruct
    /// event.
    pub fn mutate_at(&mut self, e: u64, id: u64, v: V)
        requires
            old(self).wf(),
            old(self).alive(e),
            old(self).region_value(e, id) is Some,
            claimed_tail(*old(self), e, id),
        ensures
            final(self).wf(),
            frame_coord(*old(self), *final(self), e, id),
            final(self).mods() == old(self).mods(),
            final(self).mod_count(e, id) == old(self).mod_count(e, id),
            region_queue_after(*old(self), *final(self), e, id, Some(v)),
            claimed_tail(*final(self), e, id),
            final(self).region_slot(e, id) == Some(Some(v)),
            final(self).main_slot(e, id) == (if old(self).is_def() {
                old(self).main_slot(e, id)
            } else {
                Some(Some(v))
            }),
            final(self).place_slot(e, id) == (if old(self).is_def() {
                Some(Some(v))
            } else {
                old(self).place_slot(e, id)
            }),
            final(self).ctors(e, id) == old(self).ctors(e, id),
            final(self).dtors(e, id) == old(self).dtors(e, id),
    {
        let _was = self.region_set(e, id, Some(v));
        proof {
            lemma_balance_entity(*old(self), *self, e);
        }
    }

    /// Blindly overwrite the write-region cell of `(e, id)` with `v`:
    /// safe only for plain data, since a constructed prior value is
    /// replaced without a destruct event. Constructs the cell when it was
    /// unconstructed.
    pub fn overwrite_at(&mut self, e: u64, id: u64, v: V)
        requires
            old(self).wf(),
            old(self).alive(e),
            old(self).region_slot(e, id) is Some,
            claimed_tail(*old(self), e, id),
        ensures
            final(self).wf(),
            frame_coord(*old(self), *final(self), e, id),
            final(self).mods() == old(self).mods(),
            final(self).mod_count(e, id) == old(self).mod_count(e, id),
            region_queue_after(*old(self), *final(self), e, id, Some(v)),
            claimed_tail(*final(self), e, id),
            final(self).region_slot(e, id) == Some(Some(v)),
            final(self).main_slot(e, id) == (if old(self).is_def() {
                old(self).main_slot(e, id)
            } else {
                Some(Some(v))
            }),
            final(self).place_slot(e, id) == (if old(self).is_def() {
                Some(Some(v))
            } else {
                old(self).place_slot(e, id)
            }),
            final(self).ctors(e, id) == old(self).ctors(e, id) + (if old(self).region_value(e, id)
                is Some {
                0nat
            } else {
                1nat
            }),
            final(self).dtors(e, id) == old(self).dtors(e, id),
    {
        let was = self.region_set(e, id, Some(v));
        let ghost mid = *self;
        if was.is_none() {
            self.ctor_events.push((e, id));
            proof {
                lemma_ctor_push(mid, *self, e, id);
            }
        }
        proof {
            lemma_balance_entity(*old(self), *self, e);
        }
    }
}

} // verus!

verus! {

/// When an ensure of `(e, id)` can yield a constructed value: the
/// pending state (main storage with every queued command applied) must
/// hold a constructed value, or a default value must exist to construct
/// one.
pub open spec fn ensure_ok<V: Copy>(w: World<V>, e: u64, id: u64, default: Option<V>) -> bool {
    w.pending_value(e, id) is Some || default is Some
}

/// The value an ensure of `(e, id)` yields: the pending value when one is
/// constructed, else the default.
pub open spec fn ensure_src<V: Copy>(w: World<V>, e: u64, id: u64, default: Option<V>) -> Option<
    V,
> {
    if w.pending_value(e, id) is Some {
        w.pending_value(e, id)
    } else {
        default
    }
}

impl<V: Copy> World<V> {
    fn has_s(&self, e: u64, id: u64) -> (r: bool)
        requires
            self.structs_ok(),
            self.alive(e),
        ensures
            r == self.has(e, id),
    {
        let i = self.find_ent_idx_s(e);
        let row = &self.ents[i];
        proof {
            assert(World::rec_wf(self.ents@[i as int]));
            lemma_ent_at(self.ents@, i as int);
            lemma_assoc_some_iff(row.ids@, row.cells@, id);
        }
        match find_col(&row.ids, id) {
            None => false,
            Some(_) => {
                proof {
                    assert(row.ids@.contains(id));
                }
                true
            },
        }
    }

    /// Claim a write-region cell for `(e, id)` without constructing
    /// anything. In immediate mode the claim is the main-storage cell — a
    /// fresh unconstructed one when the id was absent — and the flag
    /// reports that the id was new to the entity. While deferred, the
    /// claim is always fresh staged storage at the queue tail, so the
    /// claimed cell never holds a prior value and the flag is true; any
    /// previously staged or stored value is superseded when the queue
    /// drains, in order.
    pub fn emplace_claim(&mut self, e: u64, id: u64) -> (is_new: bool)
        requires
            old(self).wf(),
            old(self).alive(e),
        ensures
            final(self).wf(),
            frame_coord(*old(self), *final(self), e, id),
            final(self).mods() == old(self).mods(),
            final(self).mod_count(e, id) == old(self).mod_count(e, id),
            claimed_tail(*final(self), e, id),
            is_new == (if old(self).is_def() {
                true
            } else {
                !old(self).has(e, id)
            }),
            if old(self).is_def() {
                &&& final(self).queue() == old(self).queue().push(
                    Cmd::PlaceCmd { entity: e, id, cell: None },
                )
                &&& final(self).main_slot(e, id) == old(self).main_slot(e, id)
                &&& final(self).place_slot(e, id) == Some(None::<V>)
                &&& final(self).region_slot(e, id) == Some(None::<V>)
            } else {
                &&& final(self).queue() == old(self).queue()
                &&& final(self).main_slot(e, id) == (if old(self).has(e, id) {
                    old(self).main_slot(e, id)
                } else {
                    Some(None::<V>)
                })
                &&& final(self).region_slot(e, id) == (if old(self).has(e, id) {
                    old(self).main_slot(e, id)
                } else {
                    Some(None::<V>)
                })
                &&& final(self).place_slot(e, id) == old(self).place_slot(e, id)
            },
            final(self).ctors(e, id) == old(self).ctors(e, id),
            final(self).dtors(e, id) == old(self).dtors(e, id),
            final(self).staged_live(e, id) == old(self).staged_live(e, id),
    {
        if self.deferred {
            let c = Cmd::PlaceCmd { entity: e, id, cell: None };
            proof {
                lemma_qlive_push(self.q@, c);
                lemma_place_push_place(self.q@, e, id, None::<V>);
            }
            self.q.push(c);
            proof {
                let a = *old(self);
                let b = *self;
                assert forall|e2: u64, id2: u64| #[trigger]
                    b.main_slot(e2, id2) == a.main_slot(e2, id2) by {
                    assert(b.ents@ == a.ents@);
                }
                assert forall|e2: u64, id2: u64| #[trigger]
                    b.toggle(e2, id2) == a.toggle(e2, id2) by {
                    assert(b.ents@ == a.ents@);
                }
                assert forall|e2: u64| #[trigger] b.alive(e2) == a.alive(e2) by {
                    assert(b.ents@ == a.ents@);
                }
                assert forall|k: int|
                    0 <= k < b.q@.len() implies b.alive(
                    World::cmd_entity(#[trigger] b.q@[k]),
                ) by {
                    if k < b.q@.len() - 1 {
                        assert(b.q@[k] == a.q@[k]);
                        assert(a.alive(World::cmd_entity(a.q@[k])));
                    } else {
                        assert(b.q@[k] == c);
                    }
                }
                lemma_balance_entity(a, b, e);
                assert(b.q@[b.q@.len() - 1] == c);
            }
            true
        } else {
            let is_new = !self.has_s(e, id);
            if is_new {
                self.push_col(e, id, None);
                proof {
                    lemma_balance_entity(*old(self), *self, e);
                }
            }
            is_new
        }
    }

    /// Ensure a constructed value in the write region of `(e, id)`. In
    /// immediate mode the present value is reused in place, or the
    /// default is constructed into the cell. While deferred, a fresh
    /// staged cell is claimed at the queue tail and constructed from the
    /// coordinate's pending value — the value the queue would leave
    /// behind — or from the default when none is pending. Returns the
    /// value now in the region.
    pub fn ensure_claim(&mut self, e: u64, id: u64, default: Option<V>) -> (got: V)
        requires
            old(self).wf(),
            old(self).alive(e),
            ensure_ok(*old(self), e, id, default),
        ensures
            final(self).wf(),
            frame_coord(*old(self), *final(self), e, id),
            final(self).mods() == old(self).mods(),
            final(self).mod_count(e, id) == old(self).mod_count(e, id),
            claimed_tail(*final(self), e, id),
            Some(got) == ensure_src(*old(self), e, id, default),
            final(self).region_slot(e, id) == Some(Some(got)),
            final(self).dtors(e, id) == old(self).dtors(e, id),
            if old(self).is_def() {
                &&& final(self).queue() == old(self).queue().push(
                    Cmd::PlaceCmd { entity: e, id, cell: Some(got) },
                )
                &&& final(self).main_slot(e, id) == old(self).main_slot(e, id)
                &&& final(self).place_slot(e, id) == Some(Some(got))
                &&& final(self).ctors(e, id) == old(self).ctors(e, id) + 1
                &&& final(self).staged_live(e, id) == old(self).staged_live(e, id) + 1
            } else {
                &&& final(self).queue() == old(self).queue()
                &&& final(self).main_slot(e, id) == Some(Some(got))
                &&& final(self).place_slot(e, id) == old(self).place_slot(e, id)
                &&& final(self).ctors(e, id) == old(self).ctors(e, id) + (if old(self).value(e, id)
                    is Some {
                    0nat
                } else {
                    1nat
                })
                &&& final(self).staged_live(e, id) == old(self).staged_live(e, id)
            },
    {
        if self.deferred {
            let got = match self.pending_cell(e, id) {
                Some(Some(v)) => v,
                _ => match default {
                    Some(d) => d,
                    None => {
                        proof {
                            assert(false);
                        }
                        loop
                            invariant
                                false,
                            decreases 0int,
                        {
                        }
                    },
                },
            };
            let c = Cmd::PlaceCmd { entity: e, id, cell: Some(got) };
            proof {
                lemma_qlive_push(self.q@, c);
                lemma_place_push_place(self.q@, e, id, Some(got));
            }
            self.q.push(c);
            let ghost mid = *self;
            self.ctor_events.push((e, id));
            proof {
                let a = *old(self);
                let b = *self;
                assert forall|e2: u64, id2: u64| #[trigger]
                    mid.main_slot(e2, id2) == a.main_slot(e2, id2) by {
                    assert(mid.ents@ == a.ents@);
                }
                assert forall|e2: u64, id2: u64| #[trigger]
                    mid.toggle(e2, id2) == a.toggle(e2, id2) by {
                    assert(mid.ents@ == a.ents@);
                }
                assert forall|e2: u64| #[trigger] mid.alive(e2) == a.alive(e2) by {
                    assert(mid.ents@ == a.ents@);
                }
                assert(mid.structs_ok()) by {
                    assert forall|k: int|
                        0 <= k < mid.q@.len() implies mid.alive(
                        World::cmd_entity(#[trigger] mid.q@[k]),
                    ) by {
                        if k < mid.q@.len() - 1 {
                            assert(mid.q@[k] == a.q@[k]);
                            assert(a.alive(World::cmd_entity(a.q@[k])));
                        } else {
                            assert(mid.q@[k] == c);
                        }
                    }
                }
                lemma_ctor_push(mid, b, e, id);
                lemma_balance_entity(a, b, e);
                assert(b.q@[b.q@.len() - 1] == c);
            }
            got
        } else {
            proof {
                assert(old(self).q@.len() == 0);
                assert(old(self).pending_slot(e, id) == old(self).main_slot(e, id));
            }
            match self.get_value_s(e, id) {
                Some(v) => v,
                None => {
                    let d = match default {
                        Some(d) => d,
                        None => {
                            proof {
                                assert(false);
                            }
                            loop
                                invariant
                                    false,
                                decreases 0int,
                            {
                            }
                        },
                    };
                    if self.has_s(e, id) {
                        self.set_cell_now(e, id, Some(d));
                    } else {
                        self.push_col(e, id, Some(d));
                    }
                    let ghost mid = *self;
                    self.ctor_events.push((e, id));
                    proof {
                        lemma_ctor_push(mid, *self, e, id);
                        lemma_balance_entity(*old(self), *self, e);
                    }
                    d
                },
            }
        }
    }
}

} // verus!

verus! {

/// The effect of one queued command on the main-storage cell of `(e, id)`.
pub open spec fn step_slot<V>(c: Cmd<V>, e: u64, id: u64, s: Option<Option<V>>) -> Option<
    Option<V>,
> {
    match c {
        Cmd::AddCmd { entity, id: cid, init } => if entity == e && cid == id && s is None {
            Some(init)
        } else {
            s
        },
        Cmd::RemoveCmd { entity, pattern } => if entity == e && spec_id_matches(id, pattern) {
            None
        } else {
            s
        },
        Cmd::PlaceCmd { entity, id: cid, cell } => if entity == e && cid == id {
            Some(cell)
        } else {
            s
        },
    }
}

/// Folding a whole command queue, in order, over the main-storage cell of
/// `(e, id)`.
pub open spec fn drain_slot<V>(q: Seq<Cmd<V>>, e: u64, id: u64, s: Option<Option<V>>) -> Option<
    Option<V>,
>
    decreases q.len(),
{
    if q.len() == 0 {
        s
    } else {
        drain_slot(q.drop_first(), e, id, step_slot(q[0], e, id, s))
    }
}

/// Folding one more command at the queue tail is one fold step on the
/// folded prefix.
pub proof fn lemma_drain_snoc<V>(q: Seq<Cmd<V>>, c: Cmd<V>, e: u64, id: u64, s: Option<Option<V>>)
    ensures
        drain_slot(q.push(c), e, id, s) == step_slot(c, e, id, drain_slot(q, e, id, s)),
    decreases q.len(),
{
    if q.len() == 0 {
        assert(q.push(c)[0] == c);
        assert(q.push(c).drop_first() =~= Seq::<Cmd<V>>::empty());
        assert(drain_slot(q.push(c), e, id, s) == drain_slot(
            Seq::<Cmd<V>>::empty(),
            e,
            id,
            step_slot(c, e, id, s),
        ));
    } else {
        assert(q.push(c)[0] == q[0]);
        assert(q.push(c).drop_first() =~= q.drop_first().push(c));
        lemma_drain_snoc(q.drop_first(), c, e, id, step_slot(q[0], e, id, s));
        assert(drain_slot(q.push(c), e, id, s) == drain_slot(
            q.drop_first().push(c),
            e,
            id,
            step_slot(q[0], e, id, s),
        ));
        assert(drain_slot(q, e, id, s) == drain_slot(
            q.drop_first(),
            e,
            id,
            step_slot(q[0], e, id, s),
        ));
    }
}

impl<V: Copy> World<V> {
    /// The cell of `(e, id)` as it will stand once the queue drains: the
    /// fold of the queued commands over the main-storage cell. With an
    /// empty queue (immediate mode) this is the main-storage cell itself.
    pub open spec fn pending_slot(self, e: u64, id: u64) -> Option<Option<V>> {
        drain_slot(self.queue(), e, id, self.main_slot(e, id))
    }

    /// The constructed value `(e, id)` will hold once the queue drains,
    /// if any.
    pub open spec fn pending_value(self, e: u64, id: u64) -> Option<V> {
        match self.pending_slot(e, id) {
            Some(c) => c,
            None => None,
        }
    }

    fn main_cell(&self, e: u64, id: u64) -> (r: Option<Option<V>>)
        requires
            self.wf(),
        ensures
            r == self.main_slot(e, id),
    {
        match self.find_ent_idx(e) {
            None => None,
            Some(i) => {
                let row = &self.ents[i];
                proof {
                    assert(World::rec_wf(self.ents@[i as int]));
                }
                match find_col(&row.ids, id) {
                    None => {
                        proof {
                            lemma_assoc_some_iff(row.ids@, row.cells@, id);
                        }
                        None
                    },
                    Some(j) => {
                        proof {
                            lemma_assoc_at(row.ids@, row.cells@, j as int);
                        }
                        Some(row.cells[j])
                    },
                }
            },
        }
    }

    /// Compute the pending cell of `(e, id)`: the main-storage cell with
    /// every queued command applied, in order.
    pub fn pending_cell(&self, e: u64, id: u64) -> (r: Option<Option<V>>)
        requires
            self.wf(),
        ensures
            r == self.pending_slot(e, id),
    {
        let mut s = self.main_cell(e, id);
        let mut i: usize = 0;
        while i < self.q.len()
            invariant
                self.wf(),
                i <= self.q@.len(),
                s == drain_slot(self.q@.take(i as int), e, id, self.main_slot(e, id)),
            decreases self.q@.len() - i,
        {
            proof {
                assert(self.q@.take(i + 1 as int) =~= self.q@.take(i as int).push(
                    self.q@[i as int],
                ));
                lemma_drain_snoc(
                    self.q@.take(i as int),
                    self.q@[i as int],
                    e,
                    id,
                    self.main_slot(e, id),
                );
            }
            s = match &self.q[i] {
                Cmd::AddCmd { entity, id: cid, init } => if *entity == e && *cid == id
                    && s.is_none() {
                    Some(*init)
                } else {
                    s
                },
                Cmd::RemoveCmd { entity, pattern } => if *entity == e && id_matches(
                    id,
                    *pattern,
                ) {
                    None
                } else {
                    s
                },
                Cmd::PlaceCmd { entity, id: cid, cell } => if *entity == e && *cid == id {
                    Some(*cell)
                } else {
                    s
                },
            };
            i += 1;
        }
        proof {
            assert(self.q@.take(self.q@.len() as int) =~= self.q@);
        }
        s
    }
}

impl<V: Copy> World<V> {
    /// Apply a staged write to main storage: destroy the present value if
    /// one is constructed, then move the staged cell in.
    fn place_now(&mut self, e: u64, id: u64, cell: Option<V>)
        requires
            old(self).structs_ok(),
            old(self).alive(e),
        ensures
            final(self).structs_ok(),
            final(self).main_slot(e, id) == Some(cell),
            forall|e2: u64, id2: u64|
                !(e2 == e && id2 == id) ==> #[trigger] final(self).main_slot(e2, id2) == old(
                    self,
                ).main_slot(e2, id2),
            forall|e2: u64| #[trigger] final(self).alive(e2) == old(self).alive(e2),
            forall|e2: u64, id2: u64| #[trigger]
                final(self).toggle(e2, id2) == old(self).toggle(e2, id2),
            final(self).ctor_log() == old(self).ctor_log(),
            final(self).dtor_log() == (if old(self).value(e, id) is Some {
                old(self).dtor_log().push((e, id))
            } else {
                old(self).dtor_log()
            }),
            final(self).mods() == old(self).mods(),
            final(self).queue() == old(self).queue(),
            final(self).is_def() == old(self).is_def(),
            final(self).with_id() == old(self).with_id(),
            final(self).scope_id() == old(self).scope_id(),
            forall|e2: u64, id2: u64| #[trigger]
                final(self).place_slot(e2, id2) == old(self).place_slot(e2, id2),
            forall|e2: u64, id2: u64| #[trigger]
                final(self).staged_live(e2, id2) == old(self).staged_live(e2, id2),
    {
        let cur = self.get_value_s(e, id);
        let present = self.has_s(e, id);
        if present {
            self.set_cell_now(e, id, cell);
        } else {
            self.push_col(e, id, cell);
        }
        let ghost mid = *self;
        if cur.is_some() {
            self.dtor_events.push((e, id));
            proof {
                lemma_dtor_push(mid, *self, e, id);
            }
        }
    }

    /// Leave deferred mode and drain the queue: every queued command is
    /// applied against main storage, in enqueue order (per-entity FIFO).
    /// The resulting cell of every coordinate is the fold of the queue
    /// over its old cell.
    pub fn defer_end(&mut self)
        requires
            old(self).wf(),
            old(self).is_def(),
        ensures
            final(self).wf(),
            !final(self).is_def(),
            final(self).queue().len() == 0,
            forall|e: u64, id: u64| #[trigger]
                final(self).main_slot(e, id) == drain_slot(
                    old(self).queue(),
                    e,
                    id,
                    old(self).main_slot(e, id),
                ),
            forall|e: u64| #[trigger] final(self).alive(e) == old(self).alive(e),
            forall|e: u64, id: u64| #[trigger]
                final(self).toggle(e, id) == old(self).toggle(e, id),
            final(self).mods() == old(self).mods(),
            final(self).with_id() == old(self).with_id(),
            final(self).scope_id() == old(self).scope_id(),
    {
        while self.q.len() > 0
            invariant
                self.structs_ok(),
                self.balanced(),
                self.is_def(),
                forall|e: u64, id: u64| #[trigger]
                    drain_slot(self.queue(), e, id, self.main_slot(e, id)) == drain_slot(
                        old(self).queue(),
                        e,
                        id,
                        old(self).main_slot(e, id),
                    ),
                forall|e: u64| #[trigger] self.alive(e) == old(self).alive(e),
                forall|e: u64, id: u64| #[trigger] self.toggle(e, id) == old(self).toggle(e, id),
                self.mods() == old(self).mods(),
                self.with_id() == old(self).with_id(),
                self.scope_id() == old(self).scope_id(),
            decreases self.q@.len(),
        {
            let ghost pre = *self;
            let c = self.q.remove(0);
            let ghost popped = *self;
            proof {
                assert(popped.q@ =~= pre.q@.drop_first());
                assert(popped.structs_ok()) by {
                    assert forall|k: int|
                        0 <= k < popped.q@.len() implies popped.alive(
                        World::cmd_entity(#[trigger] popped.q@[k]),
                    ) by {
                        assert(popped.q@[k] == pre.q@[k + 1]);
                        assert(pre.alive(World::cmd_entity(pre.q@[k + 1])));
                        assert(popped.ents@ == pre.ents@);
                    }
                }
                assert(pre.alive(World::cmd_entity(pre.q@[0])));
                assert(popped.alive(World::cmd_entity(c))) by {
                    assert(popped.ents@ == pre.ents@);
                }
                assert forall|e2: u64, id2: u64| #[trigger]
                    popped.staged_live(e2, id2) + live1(c, e2, id2) == pre.staged_live(
                    e2,
                    id2,
                ) by {
                    assert(qlive(pre.q@, e2, id2) == live1(pre.q@[0], e2, id2) + qlive(
                        pre.q@.drop_first(),
                        e2,
                        id2,
                    ));
                }
            }
            match c {
                Cmd::AddCmd { entity, id, init } => {
                    self.add_now(entity, id, init);
                    proof {
                        let b = *self;
                        if !popped.has(entity, id) && init is Some {
                            lemma_count_push(popped.ctor_log(), (entity, id));
                        }
                        assert forall|e2: u64, id2: u64| #[trigger]
                            b.main_slot(e2, id2) == step_slot(
                            c,
                            e2,
                            id2,
                            pre.main_slot(e2, id2),
                        ) by {
                            assert(popped.main_slot(e2, id2) == pre.main_slot(e2, id2));
                        }
                        assert forall|e2: u64, id2: u64|
                            (#[trigger] b.ctors(e2, id2)) == b.dtors(e2, id2) + b.main_live(
                            e2,
                            id2,
                        ) + b.staged_live(e2, id2) by {
                            assert(pre.ctors(e2, id2) == pre.dtors(e2, id2) + pre.main_live(e2, id2)
                                + pre.staged_live(e2, id2));
                            assert(b.staged_live(e2, id2) == popped.staged_live(e2, id2));
                            assert(popped.staged_live(e2, id2) + live1(c, e2, id2)
                                == pre.staged_live(e2, id2));
                        }
                    }
                },
                Cmd::RemoveCmd { entity, pattern } => {
                    self.remove_now(entity, pattern);
                    proof {
                        let b = *self;
                        assert forall|e2: u64, id2: u64| #[trigger]
                            b.main_slot(e2, id2) == step_slot(
                            c,
                            e2,
                            id2,
                            pre.main_slot(e2, id2),
                        ) by {
                            assert(popped.main_slot(e2, id2) == pre.main_slot(e2, id2));
                            if e2 == entity {
                                assert(b.main_slot(e2, id2) == (if spec_id_matches(id2, pattern) {
                                    None::<Option<V>>
                                } else {
                                    popped.main_slot(e2, id2)
                                }));
                            }
                        }
                        assert forall|e2: u64, id2: u64|
                            (#[trigger] b.ctors(e2, id2)) == b.dtors(e2, id2) + b.main_live(
                            e2,
                            id2,
                        ) + b.staged_live(e2, id2) by {
                            assert(pre.ctors(e2, id2) == pre.dtors(e2, id2) + pre.main_live(e2, id2)
                                + pre.staged_live(e2, id2));
                            assert(popped.staged_live(e2, id2) + live1(c, e2, id2)
                                == pre.staged_live(e2, id2));
                            assert(b.staged_live(e2, id2) == popped.staged_live(e2, id2));
                            if e2 == entity {
                                assert(count_at(b.dtor_log(), e2, id2) == count_at(
                                    popped.dtor_log(),
                                    e2,
                                    id2,
                                ) + (if spec_id_matches(id2, pattern) {
                                    popped.main_live(e2, id2)
                                } else {
                                    0nat
                                }));
                            }
                        }
                    }
                },
                Cmd::PlaceCmd { entity, id, cell } => {
                    self.place_now(entity, id, cell);
                    proof {
                        let b = *self;
                        if popped.value(entity, id) is Some {
                            lemma_count_push(popped.dtor_log(), (entity, id));
                        }
                        assert forall|e2: u64, id2: u64| #[trigger]
                            b.main_slot(e2, id2) == step_slot(
                            c,
                            e2,
                            id2,
                            pre.main_slot(e2, id2),
                        ) by {
                            assert(popped.main_slot(e2, id2) == pre.main_slot(e2, id2));
                        }
                        assert forall|e2: u64, id2: u64|
                            (#[trigger] b.ctors(e2, id2)) == b.dtors(e2, id2) + b.main_live(
                            e2,
                            id2,
                        ) + b.staged_live(e2, id2) by {
                            assert(pre.ctors(e2, id2) == pre.dtors(e2, id2) + pre.main_live(e2, id2)
                                + pre.staged_live(e2, id2));
                            assert(popped.staged_live(e2, id2) + live1(c, e2, id2)
                                == pre.staged_live(e2, id2));
                            assert(b.staged_live(e2, id2) == popped.staged_live(e2, id2));
                        }
                    }
                },
            }
            proof {
                let b = *self;
                assert forall|e2: u64| #[trigger] b.alive(e2) == old(self).alive(e2) by {
                    assert(popped.alive(e2) == pre.alive(e2)) by {
                        assert(popped.ents@ == pre.ents@);
                    }
                    assert(b.alive(e2) == popped.alive(e2));
                    assert(pre.alive(e2) == old(self).alive(e2));
                }
                assert forall|e2: u64, id2: u64| #[trigger]
                    b.toggle(e2, id2) == old(self).toggle(e2, id2) by {
                    assert(popped.toggle(e2, id2) == pre.toggle(e2, id2)) by {
                        assert(popped.ents@ == pre.ents@);
                    }
                    assert(b.toggle(e2, id2) == popped.toggle(e2, id2));
                    assert(pre.toggle(e2, id2) == old(self).toggle(e2, id2));
                }
                assert forall|e2: u64, id2: u64| #[trigger]
                    drain_slot(b.queue(), e2, id2, b.main_slot(e2, id2)) == drain_slot(
                        old(self).queue(),
                        e2,
                        id2,
                        old(self).main_slot(e2, id2),
                    ) by {
                    assert(b.queue() == popped.queue());
                    assert(pre.q@.len() > 0);
                    assert(drain_slot(pre.queue(), e2, id2, pre.main_slot(e2, id2)) == drain_slot(
                        pre.q@.drop_first(),
                        e2,
                        id2,
                        step_slot(pre.q@[0], e2, id2, pre.main_slot(e2, id2)),
                    ));
                    assert(b.main_slot(e2, id2) == step_slot(c, e2, id2, pre.main_slot(e2, id2)));
                    assert(drain_slot(pre.queue(), e2, id2, pre.main_slot(e2, id2)) == drain_slot(
                        old(self).queue(),
                        e2,
                        id2,
                        old(self).main_slot(e2, id2),
                    ));
                }
            }
        }
        let ghost done = *self;
        self.deferred = false;
        proof {
            lemma_same_fields_wf(done, *self);
            assert forall|e: u64, id: u64| #[trigger]
                self.main_slot(e, id) == drain_slot(
                    old(self).queue(),
                    e,
                    id,
                    old(self).main_slot(e, id),
                ) by {
                assert(done.q@.len() == 0);
                assert(drain_slot(done.queue(), e, id, done.main_slot(e, id)) == done.main_slot(
                    e,
                    id,
                ));
                assert(self.main_slot(e, id) == done.main_slot(e, id));
            }
        }
    }
}

} // verus!

verus! {

/// What `World::add` guarantees, relating the state before to the state
/// after adding `id` to `e` with initial cell `init`.
pub open spec fn add_post<V: Copy>(
    pre: World<V>,
    post: World<V>,
    e: u64,
    id: u64,
    init: Option<V>,
) -> bool {
    &&& post.wf()
    &&& frame_coord(pre, post, e, id)
    &&& post.mod_count(e, id) == pre.mod_count(e, id)
    &&& post.mods() == pre.mods()
    &&& if pre.is_def() {
        &&& post.queue() == pre.queue().push(Cmd::AddCmd { entity: e, id, init })
        &&& post.ent_ids(e) == pre.ent_ids(e)
        &&& post.main_slot(e, id) == pre.main_slot(e, id)
        &&& post.place_slot(e, id) == pre.place_slot(e, id)
        &&& post.staged_live(e, id) == pre.staged_live(e, id)
        &&& post.ctors(e, id) == pre.ctors(e, id)
        &&& post.dtors(e, id) == pre.dtors(e, id)
    } else {
        &&& post.main_slot(e, id) == (if pre.has(e, id) {
            pre.main_slot(e, id)
        } else {
            Some(init)
        })
        &&& post.ent_ids(e) == (if pre.has(e, id) {
            pre.ent_ids(e)
        } else {
            pre.ent_ids(e).push(id)
        })
        &&& post.ctors(e, id) == pre.ctors(e, id) + (if !pre.has(e, id) && init is Some {
            1nat
        } else {
            0nat
        })
        &&& post.dtors(e, id) == pre.dtors(e, id)
        &&& post.place_slot(e, id) == pre.place_slot(e, id)
        &&& post.staged_live(e, id) == pre.staged_live(e, id)
    }
}

/// What `World::remove` guarantees for a removal of every id of `e`
/// matching `pattern`.
pub open spec fn remove_post<V: Copy>(pre: World<V>, post: World<V>, e: u64, pattern: u64) -> bool {
    &&& post.wf()
    &&& frame_entity(pre, post, e)
    &&& post.mods() == pre.mods()
    &&& post.ctor_log() == pre.ctor_log()
    &&& if pre.is_def() {
        &&& post.queue() == pre.queue().push(Cmd::RemoveCmd { entity: e, pattern })
        &&& forall|id2: u64| #[trigger] post.main_slot(e, id2) == pre.main_slot(e, id2)
        &&& forall|id2: u64| #[trigger] post.place_slot(e, id2) == pre.place_slot(e, id2)
        &&& forall|id2: u64| #[trigger] post.staged_live(e, id2) == pre.staged_live(e, id2)
        &&& forall|id2: u64| #[trigger] post.dtors(e, id2) == pre.dtors(e, id2)
    } else {
        &&& forall|id2: u64| #[trigger]
            post.main_slot(e, id2) == (if spec_id_matches(id2, pattern) {
                None::<Option<V>>
            } else {
                pre.main_slot(e, id2)
            })
        &&& forall|id2: u64| #[trigger]
            post.dtors(e, id2) == pre.dtors(e, id2) + (if spec_id_matches(id2, pattern) {
                pre.main_live(e, id2)
            } else {
                0nat
            })
        &&& forall|id2: u64| #[trigger] post.place_slot(e, id2) == pre.place_slot(e, id2)
        &&& forall|id2: u64| #[trigger] post.staged_live(e, id2) == pre.staged_live(e, id2)
    }
}

/// What `World::enable_id` guarantees: the toggle bit set, all else kept.
pub open spec fn toggle_post<V: Copy>(pre: World<V>, post: World<V>, e: u64, id: u64, on: bool) -> bool {
    &&& post.wf()
    &&& post.toggle(e, id) == Some(on)
    &&& forall|e2: u64, id2: u64|
        !(e2 == e && id2 == id) ==> #[trigger] post.toggle(e2, id2) == pre.toggle(e2, id2)
    &&& forall|e2: u64| #[trigger] post.alive(e2) == pre.alive(e2)
    &&& forall|e2: u64, id2: u64| #[trigger] post.main_slot(e2, id2) == pre.main_slot(e2, id2)
    &&& post.ctor_log() == pre.ctor_log()
    &&& post.dtor_log() == pre.dtor_log()
    &&& post.mods() == pre.mods()
    &&& post.queue() == pre.queue()
    &&& post.is_def() == pre.is_def()
    &&& post.with_id() == pre.with_id()
    &&& post.scope_id() == pre.scope_id()
}

/// The value an ensure of `(e, id)` yields, as a plain value (meaningful
/// under `ensure_ok`).
pub open spec fn ensure_got<V: Copy>(w: World<V>, e: u64, id: u64, default: Option<V>) -> V {
    match ensure_src(w, e, id, default) {
        Some(x) => x,
        None => vstd::pervasive::arbitrary(),
    }
}

impl<V: Copy> World<V> {
    /// The world with another `with`-context installed.
    pub closed spec fn spec_with_ctx_set(self, x: u64) -> World<V> {
        World { with_ctx: x, ..self }
    }

    /// The world with another default scope installed.
    pub closed spec fn spec_scope_set(self, x: u64) -> World<V> {
        World { scope_ctx: x, ..self }
    }

    /// The stored ids of entity ids of all live entities, in row order.
    pub closed spec fn spec_entities(self) -> Seq<u64> {
        self.ents@.map_values(|r: EntityRec<V>| r.id)
    }

    /// How many entities are alive.
    pub fn entity_count(&self) -> (r: usize)
        ensures
            r == self.spec_entities().len(),
    {
        self.ents.len()
    }

    /// The live entity ids, in row order.
    pub fn entities_vec(&self) -> (r: Vec<u64>)
        requires
            self.wf(),
        ensures
            r@ == self.spec_entities(),
            forall|k: int| 0 <= k < r@.len() ==> self.alive(#[trigger] r@[k]),
    {
        let mut out: Vec<u64> = Vec::new();
        let mut i: usize = 0;
        while i < self.ents.len()
            invariant
                self.wf(),
                i <= self.ents@.len(),
                out@.len() == i,
                forall|k: int| 0 <= k < i ==> out@[k] == self.spec_entities()[k],
                forall|k: int| 0 <= k < i ==> self.alive(#[trigger] out@[k]),
            decreases self.ents@.len() - i,
        {
            proof {
                lemma_ent_at(self.ents@, i as int);
            }
            out.push(self.ents[i].id);
            i += 1;
        }
        proof {
            assert(out@ =~= self.spec_entities());
        }
        out
    }

    /// A copy of the stored ids of `e`, in column order (empty when not
    /// alive).
    pub fn ids_of(&self, e: u64) -> (r: Vec<u64>)
        requires
            self.wf(),
        ensures
            r@ == self.ent_ids(e),
    {
        match self.find_ent_idx(e) {
            None => Vec::new(),
            Some(i) => {
                let row = &self.ents[i];
                let mut out: Vec<u64> = Vec::new();
                let mut k: usize = 0;
                while k < row.ids.len()
                    invariant
                        k <= row.ids@.len(),
                        out@ == row.ids@.take(k as int),
                    decreases row.ids@.len() - k,
                {
                    out.push(row.ids[k]);
                    proof {
                        assert(row.ids@.take(k + 1 as int) =~= row.ids@.take(k as int).push(
                            row.ids@[k as int],
                        ));
                    }
                    k += 1;
                }
                proof {
                    assert(row.ids@.take(row.ids@.len() as int) =~= row.ids@);
                }
                out
            },
        }
    }
}

} // verus!

verus! {

impl<V: Copy> World<V> {
    /// Read the cell of column `c` through a record, checking that the
    /// record still resolves to entity `e` and that the column still
    /// holds `id`: the cached-reference fast path. Yields `None` when any
    /// check fails; a `Some` is guaranteed to be the current cell of
    /// `(e, id)`.
    pub fn column_read_checked(&self, rec: &Record, c: usize, e: u64, id: u64) -> (r: Option<
        Option<V>,
    >)
        requires
            self.wf(),
        ensures
            r matches Some(cell) ==> self.main_slot(e, id) == Some(cell),
            (self.rec_current(*rec) && self.rec_entity(*rec) == e && (c as int)
                < self.ent_ids(e).len() && self.ent_ids(e)[c as int] == id) ==> r is Some,
    {
        if rec.tab >= self.ents.len() {
            return None;
        }
        let row = &self.ents[rec.tab];
        if row.id != e || row.gen != rec.gen {
            return None;
        }
        proof {
            lemma_ent_at(self.ents@, rec.tab as int);
            assert(self.ent_ids(e) == row.ids@);
        }
        if c >= row.ids.len() || row.ids[c] != id {
            return None;
        }
        proof {
            assert(World::rec_wf(self.ents@[rec.tab as int]));
            lemma_ent_at(self.ents@, rec.tab as int);
            lemma_assoc_at(row.ids@, row.cells@, c as int);
        }
        Some(row.cells[c])
    }
}

} // verus!
