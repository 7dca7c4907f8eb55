//! Scenario tests of the storage access layer: fetch policies, the set
//! protocol in both regimes, the identifier codec, conditional adds and
//! the end-to-end component lifecycle.

use ecs_core::component::ComponentDesc;
use ecs_core::entity_view::EntityView;
use ecs_core::fetch::ComponentsData;
use ecs_core::fetch::FetchError;
use ecs_core::fetch::SlotDesc;
use ecs_core::fetch::fetch_lenient;
use ecs_core::fetch::fetch_strict;
use ecs_core::ids::EXCLUSIVE;
use ecs_core::ids::WILDCARD;
use ecs_core::ids::decode;
use ecs_core::ids::encode;
use ecs_core::ids::is_pair;
use ecs_core::ids::strip_flags;
use ecs_core::ids::with_override;
use ecs_core::world::World;

#[derive(Clone, Copy, PartialEq, Debug)]
struct Position {
    x: i64,
    y: i64,
}

#[derive(Clone, Copy, PartialEq, Debug)]
struct Velocity {
    dx: i64,
    dy: i64,
}

#[derive(Clone, Copy, PartialEq, Debug)]
enum Val {
    Pos(Position),
    Vel(Velocity),
    Num(i64),
}

const E: u64 = 1000;
const POS_ID: u64 = 100;
const VEL_ID: u64 = 101;
const RES_ID: u64 = 102;
const TAG_ID: u64 = 103;

/// Plain data with a default constructor.
fn pos() -> ComponentDesc<Val> {
    ComponentDesc {
        id: POS_ID,
        is_tag: false,
        is_enum: false,
        needs_drop: false,
        default_value: Some(Val::Pos(Position { x: 0, y: 0 })),
    }
}

fn vel() -> ComponentDesc<Val> {
    ComponentDesc {
        id: VEL_ID,
        is_tag: false,
        is_enum: false,
        needs_drop: false,
        default_value: Some(Val::Vel(Velocity { dx: 0, dy: 0 })),
    }
}

/// A component that owns resources and has no default constructor.
fn resource() -> ComponentDesc<Val> {
    ComponentDesc {
        id: RES_ID,
        is_tag: false,
        is_enum: false,
        needs_drop: true,
        default_value: None,
    }
}

fn tag() -> ComponentDesc<Val> {
    ComponentDesc {
        id: TAG_ID,
        is_tag: true,
        is_enum: false,
        needs_drop: false,
        default_value: None,
    }
}

fn world_with_entity() -> World<Val> {
    let mut w: World<Val> = World::new();
    w.spawn(E);
    w
}

#[test]
fn strict_fetch_of_missing_fails_without_mutation() {
    let w = world_with_entity();
    let slots = vec![
        SlotDesc::from_component(&pos(), true, false),
        SlotDesc::from_component(&vel(), true, false),
    ];
    match fetch_strict(&w, E, &slots) {
        Err(FetchError::OperationFailed { slot_index, missing_id, signature }) => {
            assert_eq!(slot_index, 0);
            assert_eq!(missing_id, POS_ID);
            assert_eq!(signature, vec![POS_ID, VEL_ID]);
        },
        _ => panic!("strict fetch of missing components must fail"),
    }
    assert!(!w.has_id(E, POS_ID));
    assert!(!w.has_id(E, VEL_ID));
    assert_eq!(w.construct_count(), 0);
    assert_eq!(w.destruct_count(), 0);
    assert_eq!(w.modified_at(E, POS_ID), 0);

    let r = fetch_lenient(&w, E, &slots);
    assert_eq!(r.values, vec![None, None]);
    assert!(!r.has_all_components());
}

#[test]
fn optional_absent_slot_keeps_all_present() {
    let mut w = world_with_entity();
    let a = Val::Pos(Position { x: 7, y: 8 });
    EntityView::new(E).set(&mut w, &pos(), a);
    let slots = vec![
        SlotDesc::from_component(&pos(), true, false),
        SlotDesc::from_component(&vel(), false, false),
    ];
    let r = ComponentsData::new(&w, E, &slots);
    assert_eq!(r.get_tuple(), vec![Some(a), None]);
    assert!(r.has_all_components());
}

#[test]
fn set_twice_direct_keeps_second_value_one_signal_each() {
    let mut w = world_with_entity();
    let v1 = Val::Num(1);
    let v2 = Val::Num(2);
    let ev = EntityView::new(E);
    ev.set(&mut w, &resource(), v1);
    ev.set(&mut w, &resource(), v2);
    assert_eq!(w.get_value(E, RES_ID), Some(v2));
    assert_eq!(w.modified_at(E, RES_ID), 2);
    // the first value was destroyed exactly once: no double destruction
    assert_eq!(w.destructs_at(E, RES_ID), 1);
    assert_eq!(w.constructs_at(E, RES_ID), 2);
}

#[test]
fn codec_round_trip_and_pair_flags() {
    let r: u64 = 0x0ABC_DE;
    let t: u64 = 0x1234_5678;
    let id = encode(r, t);
    assert!(is_pair(id));
    assert_eq!(decode(id), (r, t));
    assert!(!is_pair(POS_ID));
    assert_eq!(decode(POS_ID), (POS_ID, 0));
    let marked = with_override(POS_ID);
    assert!(marked != POS_ID);
    assert_eq!(strip_flags(marked), POS_ID);
}

#[test]
fn deferred_set_of_absent_never_destructs() {
    let mut w = world_with_entity();
    let v = Val::Num(42);
    w.defer_begin();
    EntityView::new(E).set(&mut w, &resource(), v);
    // while buffered: exactly one construction, no destruction at all
    assert_eq!(w.constructs_at(E, RES_ID), 1);
    assert_eq!(w.destructs_at(E, RES_ID), 0);
    assert_eq!(w.get_value(E, RES_ID), None);
    w.defer_end();
    assert_eq!(w.get_value(E, RES_ID), Some(v));
    assert_eq!(w.construct_count(), 1);
    assert_eq!(w.destruct_count(), 0);
    // destroy it again: the counts balance out
    EntityView::new(E).remove_id(&mut w, RES_ID);
    assert_eq!(w.construct_count(), w.destruct_count());
}

#[test]
fn deferred_set_with_default_balances() {
    let mut w = world_with_entity();
    let mut res = resource();
    res.default_value = Some(Val::Num(0));
    w.defer_begin();
    EntityView::new(E).set(&mut w, &res, Val::Num(5));
    // ensure default-constructs the staged cell, destroys it, writes
    assert_eq!(w.constructs_at(E, RES_ID), 2);
    assert_eq!(w.destructs_at(E, RES_ID), 1);
    w.defer_end();
    assert_eq!(w.get_value(E, RES_ID), Some(Val::Num(5)));
    assert_eq!(w.construct_count() - w.destruct_count(), 1);
}

#[test]
fn add_if_false_removes_pair_and_exclusive_uses_wildcard() {
    let rel: u64 = 50;
    let t1: u64 = 60;
    let t2: u64 = 61;
    let mut w = world_with_entity();
    w.spawn(rel);
    let ev = EntityView::new(E);

    // non-exclusive: the named pair is removed
    ev.add_id(&mut w, encode(rel, t1));
    assert!(w.has_id(E, encode(rel, t1)));
    ev.add_id_if(&mut w, encode(rel, t1), false);
    assert!(!w.has_id(E, encode(rel, t1)));

    // exclusive: whatever target exists is removed, not only the named one
    EntityView::new(rel).add_id(&mut w, EXCLUSIVE);
    assert!(w.has_id(rel, EXCLUSIVE));
    ev.add_id(&mut w, encode(rel, t1));
    ev.add_id_if(&mut w, encode(rel, t2), false);
    assert!(!w.has_id(E, encode(rel, t1)));
    assert!(!w.has_id(E, encode(rel, t2)));

    // a zero target also removes by wildcard
    ev.add_id(&mut w, encode(rel, t2));
    EntityView::new(rel).remove_id(&mut w, EXCLUSIVE);
    ev.add_id_if(&mut w, encode(rel, 0), false);
    assert!(!w.has_id(E, encode(rel, t2)));
}

#[test]
fn end_to_end_set_overwrite_fetch_remove() {
    let mut w = world_with_entity();
    let ev = EntityView::new(E);
    ev.set(&mut w, &pos(), Val::Pos(Position { x: 1, y: 2 }));
    ev.set(&mut w, &pos(), Val::Pos(Position { x: 3, y: 4 }));
    let slots = vec![SlotDesc::from_component(&pos(), true, false)];
    let r = fetch_lenient(&w, E, &slots);
    assert_eq!(r.values, vec![Some(Val::Pos(Position { x: 3, y: 4 }))]);
    assert!(r.has_all_components());

    ev.remove(&mut w, &pos());
    let r2 = fetch_lenient(&w, E, &slots);
    assert_eq!(r2.values, vec![None]);
    assert!(!r2.has_all_components());
}

#[test]
fn strict_fetch_rejects_tag_slots() {
    let mut w = world_with_entity();
    EntityView::new(E).add(&mut w, &tag());
    let slots = vec![
        SlotDesc::from_component(&tag(), true, false),
        SlotDesc::from_component(&pos(), true, false),
    ];
    match fetch_strict(&w, E, &slots) {
        Err(FetchError::InvalidParameter { slot_index }) => assert_eq!(slot_index, 0),
        _ => panic!("a tag request must be an invalid parameter"),
    }
    // leniently, a tag reads as absent
    let r = fetch_lenient(&w, E, &slots);
    assert_eq!(r.values, vec![None, None]);
    assert!(!r.has_all_components());
}

#[test]
fn fetch_on_dead_entity_is_all_absent() {
    let w: World<Val> = World::new();
    let slots = vec![SlotDesc::from_component(&pos(), false, false)];
    let r = fetch_lenient(&w, 999, &slots);
    assert_eq!(r.values, vec![None]);
    assert!(r.has_all_components());
}

#[test]
fn deferred_add_and_remove_apply_at_drain_in_order() {
    let mut w = world_with_entity();
    let ev = EntityView::new(E);
    w.defer_begin();
    ev.add(&mut w, &pos());
    assert!(!w.has_id(E, POS_ID));
    ev.remove_id(&mut w, POS_ID);
    ev.add(&mut w, &vel());
    w.defer_end();
    // add then remove of the position cancelled out; the velocity stays
    assert!(!w.has_id(E, POS_ID));
    assert!(w.has_id(E, VEL_ID));
    assert_eq!(w.get_value(E, VEL_ID), Some(Val::Vel(Velocity { dx: 0, dy: 0 })));
}

#[test]
fn insert_overwrites_like_set() {
    let mut w = world_with_entity();
    let ev = EntityView::new(E);
    ev.insert(&mut w, &resource(), Val::Num(1));
    ev.insert(&mut w, &resource(), Val::Num(2));
    assert_eq!(w.get_value(E, RES_ID), Some(Val::Num(2)));
    assert_eq!(w.destructs_at(E, RES_ID), 1);
}

#[test]
fn set_pair_and_reads() {
    let mut w = world_with_entity();
    let ev = EntityView::new(E);
    let second: u64 = 77;
    ev.set_first(&mut w, &pos(), ecs_core::entity::Entity { id: second }, Val::Num(9));
    let pair = encode(POS_ID, second);
    assert_eq!(w.get_value(E, pair), Some(Val::Num(9)));
    let ent = ecs_core::entity::Entity { id: E };
    assert_eq!(ent.get_pair_untyped(&w, POS_ID, second), Some(Val::Num(9)));
}

#[test]
fn drain_applies_per_entity_fifo_order() {
    let mut w = world_with_entity();
    let ev = EntityView::new(E);
    // set, then remove: the later command wins at the drain
    w.defer_begin();
    ev.set(&mut w, &pos(), Val::Num(1));
    ev.remove_id(&mut w, POS_ID);
    w.defer_end();
    assert!(!w.has_id(E, POS_ID));
    // remove, then set: the value survives
    ev.set(&mut w, &pos(), Val::Num(7));
    w.defer_begin();
    ev.remove_id(&mut w, POS_ID);
    ev.set(&mut w, &pos(), Val::Num(8));
    w.defer_end();
    assert_eq!(w.get_value(E, POS_ID), Some(Val::Num(8)));
}

#[test]
fn deferred_write_remove_write_keeps_last_write() {
    // a write staged before a remove must not swallow a later write: each
    // deferred write claims fresh staged storage at the queue tail
    let mut w = world_with_entity();
    let ev = EntityView::new(E);
    w.defer_begin();
    ev.set(&mut w, &resource(), Val::Num(1));
    ev.remove_id(&mut w, RES_ID);
    ev.set(&mut w, &resource(), Val::Num(2));
    w.defer_end();
    assert_eq!(w.get_value(E, RES_ID), Some(Val::Num(2)));
    // the first value was constructed once and destroyed once, at the drain
    assert_eq!(w.constructs_at(E, RES_ID), 2);
    assert_eq!(w.destructs_at(E, RES_ID), 1);

    // the same shape for a component with a default constructor
    let mut res = resource();
    res.default_value = Some(Val::Num(0));
    let f: u64 = 777;
    w.spawn(f);
    let fv = EntityView::new(f);
    w.defer_begin();
    fv.set(&mut w, &res, Val::Num(1));
    fv.remove_id(&mut w, RES_ID);
    fv.set(&mut w, &res, Val::Num(2));
    w.defer_end();
    assert_eq!(w.get_value(f, RES_ID), Some(Val::Num(2)));
    assert_eq!(w.construct_count(), w.destruct_count() + 2);
}

#[test]
fn wildcard_patterns_match_any_target() {
    let mut w = world_with_entity();
    let ev = EntityView::new(E);
    let rel: u64 = 55;
    ev.add_id(&mut w, encode(rel, 70));
    ev.add_id(&mut w, encode(rel, 71));
    ev.add_id(&mut w, encode(56, 70));
    assert!(w.has_matching(E, encode(rel, WILDCARD)));
    ev.remove_id(&mut w, encode(rel, WILDCARD));
    assert!(!w.has_id(E, encode(rel, 70)));
    assert!(!w.has_id(E, encode(rel, 71)));
    // the other relationship's pair is untouched
    assert!(w.has_id(E, encode(56, 70)));
}
