//! Tests of the engine internals exposed through the library: the write
//! strategy table, access-mode bookkeeping, toggles, relationship queries,
//! cached references, scoped contexts and enum components.

use ecs_core::component::ComponentDesc;
use ecs_core::component::EcsError;
use ecs_core::component::EnumDesc;
use ecs_core::entity::Entity;
use ecs_core::entity_view::EntityView;
use ecs_core::fetch::SlotDesc;
use ecs_core::fetch::all_immutable;
use ecs_core::ids::CHILD_OF;
use ecs_core::ids::DISABLED;
use ecs_core::ids::IS_A;
use ecs_core::ids::WILDCARD;
use ecs_core::ids::encode;
use ecs_core::fetch::TupleForm;
use ecs_core::fetch::Wrapper;
use ecs_core::mutate::SetStrategy;
use ecs_core::naming::NameRegistry;
use ecs_core::mutate::choose_strategy;
use ecs_core::world::World;

#[derive(Clone, Copy, PartialEq, Debug)]
struct Position {
    x: i64,
    y: i64,
}

#[derive(Clone, Copy, PartialEq, Debug)]
struct Velocity {
    dx: i64,
    dy: i64,
}

#[derive(Clone, Copy, PartialEq, Debug)]
enum Val {
    Pos(Position),
    Vel(Velocity),
    Num(i64),
}

const E: u64 = 2000;
const POS_ID: u64 = 100;
const VEL_ID: u64 = 101;

fn pos() -> ComponentDesc<Val> {
    ComponentDesc {
        id: POS_ID,
        is_tag: false,
        is_enum: false,
        needs_drop: false,
        default_value: Some(Val::Pos(Position { x: 0, y: 0 })),
    }
}

fn vel() -> ComponentDesc<Val> {
    ComponentDesc {
        id: VEL_ID,
        is_tag: false,
        is_enum: false,
        needs_drop: false,
        default_value: Some(Val::Vel(Velocity { dx: 0, dy: 0 })),
    }
}

fn slot(desc: &ComponentDesc<Val>, required: bool, mutable: bool) -> SlotDesc {
    SlotDesc::from_component(desc, required, mutable)
}

#[test]
fn are_all_terms_const() {
    let p = pos();
    let v = vel();
    // (&Position, &Velocity)
    assert_eq!(all_immutable(&vec![slot(&p, true, false), slot(&v, true, false)]), true);
    // (Option<&Position>, &Velocity)
    assert_eq!(all_immutable(&vec![slot(&p, false, false), slot(&v, true, false)]), true);
    // (&Position, Option<&Velocity>)
    assert_eq!(all_immutable(&vec![slot(&p, true, false), slot(&v, false, false)]), true);
    // (Option<&Position>, Option<&Velocity>)
    assert_eq!(all_immutable(&vec![slot(&p, false, false), slot(&v, false, false)]), true);
    // (&mut Position, &Velocity)
    assert_eq!(all_immutable(&vec![slot(&p, true, true), slot(&v, true, false)]), false);
    // (&Position, &mut Velocity)
    assert_eq!(all_immutable(&vec![slot(&p, true, false), slot(&v, true, true)]), false);
    // (Option<&mut Position>, &Velocity)
    assert_eq!(all_immutable(&vec![slot(&p, false, true), slot(&v, true, false)]), false);
    // (Option<&Position>, &mut Velocity)
    assert_eq!(all_immutable(&vec![slot(&p, false, false), slot(&v, true, true)]), false);
    // (&mut Position, Option<&Velocity>)
    assert_eq!(all_immutable(&vec![slot(&p, true, true), slot(&v, false, false)]), false);
    // (Option<&mut Position>, Option<&Velocity>)
    assert_eq!(all_immutable(&vec![slot(&p, false, true), slot(&v, false, false)]), false);
    // (&mut Position, &mut Velocity)
    assert_eq!(all_immutable(&vec![slot(&p, true, true), slot(&v, true, true)]), false);
    // (Option<&mut Position>, &mut Velocity)
    assert_eq!(all_immutable(&vec![slot(&p, false, true), slot(&v, true, true)]), false);
}

#[test]
fn strategy_table_matches_the_five_branches() {
    // not deferred: always the direct claim
    for &nd in &[false, true] {
        for &hd in &[false, true] {
            for &pr in &[false, true] {
                assert_eq!(choose_strategy(false, nd, hd, pr), SetStrategy::DirectEmplace);
            }
        }
    }
    // deferred, plain data: blind overwrite
    for &hd in &[false, true] {
        for &pr in &[false, true] {
            assert_eq!(choose_strategy(true, false, hd, pr), SetStrategy::EnsureOverwrite);
        }
    }
    // deferred, destructor, default available: guaranteed-constructed
    assert_eq!(choose_strategy(true, true, true, false), SetStrategy::EnsureDestroyWrite);
    assert_eq!(choose_strategy(true, true, true, true), SetStrategy::EnsureDestroyWrite);
    // deferred, destructor, no default, present: still guaranteed
    assert_eq!(choose_strategy(true, true, false, true), SetStrategy::EnsureDestroyWrite);
    // deferred, destructor, no default, absent: conditional destroy
    assert_eq!(choose_strategy(true, true, false, false), SetStrategy::EmplaceConditionalDestroy);
}

#[test]
fn toggles_enable_and_disable() {
    let mut w: World<Val> = World::new();
    w.spawn(E);
    let ev = EntityView::new(E);
    assert_eq!(w.get_toggle(E, POS_ID), None);
    ev.disable(&mut w, &pos());
    assert_eq!(w.get_toggle(E, POS_ID), Some(false));
    ev.enable(&mut w, &pos());
    assert_eq!(w.get_toggle(E, POS_ID), Some(true));

    let ent = Entity { id: E };
    assert!(ent.get_is_enabled(&w));
    ev.disable_self(&mut w);
    assert!(!ent.get_is_enabled(&w));
    assert!(w.has_id(E, DISABLED));
    ev.enable_self(&mut w);
    assert!(ent.get_is_enabled(&w));
}

#[test]
fn relationships_targets_children_depth() {
    let parent: u64 = 10_000;
    let child: u64 = 10_001;
    let grandchild: u64 = 10_002;
    let mut w: World<Val> = World::new();
    w.spawn(parent);
    w.spawn(child);
    w.spawn(grandchild);
    EntityView::new(child).child_of_id(&mut w, Entity { id: parent });
    EntityView::new(grandchild).child_of_id(&mut w, Entity { id: child });

    let c = Entity { id: child };
    assert_eq!(c.parent(&w).id, parent);
    assert_eq!(c.get_target_from_entity(&w, CHILD_OF, 0).id, parent);
    assert_eq!(c.get_target_from_entity(&w, CHILD_OF, 1).id, 0);

    let p = Entity { id: parent };
    assert_eq!(p.children_of(&w, CHILD_OF), vec![child]);
    assert_eq!(c.children_of(&w, CHILD_OF), vec![grandchild]);
    assert_eq!(Entity { id: WILDCARD }.children_of(&w, CHILD_OF), Vec::<u64>::new());

    let chain = ComponentDesc::<Val> {
        id: CHILD_OF,
        is_tag: true,
        is_enum: false,
        needs_drop: false,
        default_value: None,
    };
    assert_eq!(Entity { id: grandchild }.get_depth(&w, &chain), 2);
    assert_eq!(c.get_depth(&w, &chain), 1);
    assert_eq!(p.get_depth(&w, &chain), 0);
}

#[test]
fn target_search_follows_inheritance() {
    let base: u64 = 20_000;
    let derived: u64 = 20_001;
    let mut w: World<Val> = World::new();
    w.spawn(base);
    w.spawn(derived);
    EntityView::new(base).set(&mut w, &pos(), Val::Pos(Position { x: 5, y: 5 }));
    EntityView::new(derived).is_a_id(&mut w, Entity { id: base });

    let d = Entity { id: derived };
    // the base provides the component through the inheritance relationship
    assert_eq!(d.get_target_by_component_id(&w, IS_A, POS_ID).id, base);
    // an entity holding the id itself is its own provider
    assert_eq!(Entity { id: base }.get_target_by_component_id(&w, IS_A, POS_ID).id, base);
    // nothing provides an unknown id
    assert_eq!(d.get_target_by_component_id(&w, IS_A, 999).id, 0);
}

#[test]
fn cached_ref_reads_through_structural_changes() {
    let mut w: World<Val> = World::new();
    w.spawn(E);
    let ev = EntityView::new(E);
    ev.set(&mut w, &pos(), Val::Num(1));
    let mut r = ev.get_ref(&w, &pos());
    assert_eq!(r.try_get(&w), Some(Val::Num(1)));
    // a later write is observed
    ev.set(&mut w, &pos(), Val::Num(2));
    assert_eq!(r.try_get(&w), Some(Val::Num(2)));
    // a structural change invalidates the location; the read re-resolves
    ev.add(&mut w, &vel());
    ev.set(&mut w, &pos(), Val::Num(3));
    assert_eq!(r.try_get(&w), Some(Val::Num(3)));
    ev.remove(&mut w, &pos());
    assert_eq!(r.try_get(&w), None);
}

#[test]
fn scoped_contexts_restore_on_exit() {
    let mut w: World<Val> = World::new();
    w.spawn(E);
    let ev = EntityView::new(E);
    let (_, w2) = ev.with(w, |mut inner: World<Val>| {
        inner.spawn(E + 1);
        inner
    });
    let mut w = w2;
    assert!(w.is_alive(E + 1));
    let (_, w3) = ev.run_in_scope(w, |inner: World<Val>| inner);
    w = w3;
    assert!(w.is_alive(E));
    // nested: the outer context is restored after the inner scope ends
    let (_, w4) = ev.with(w, |inner: World<Val>| {
        let (_, inner2) = EntityView::new(E).with(inner, |deep: World<Val>| deep);
        inner2
    });
    assert!(w4.is_alive(E));
}

#[test]
fn ensure_callback_applies_in_place() {
    let mut w: World<Val> = World::new();
    w.spawn(E);
    let ev = EntityView::new(E);
    ev.set(&mut w, &pos(), Val::Num(10));
    ev.ensure_callback_mut(&mut w, &pos(), |v: Val| match v {
        Val::Num(n) => Val::Num(n + 1),
        other => other,
    });
    assert_eq!(w.get_value(E, POS_ID), Some(Val::Num(11)));
    // ensuring an absent component default-constructs it first
    ev.ensure_callback_mut(&mut w, &vel(), |_| Val::Vel(Velocity { dx: 3, dy: 4 }));
    assert_eq!(w.get_value(E, VEL_ID), Some(Val::Vel(Velocity { dx: 3, dy: 4 })));
}

#[test]
fn enum_components_resolve_constants() {
    let color: u64 = 300;
    let red: u64 = 301;
    let green: u64 = 302;
    let mut w: World<Val> = World::new();
    w.spawn(E);
    w.spawn(red);
    w.spawn(green);
    let colors = EnumDesc { id: color, variants: vec![red, green] };
    let ev = EntityView::new(E);
    ev.add_enum(&mut w, &colors, 1);
    assert!(w.has_id(E, encode(color, green)));
    let ent = Entity { id: E };
    assert!(ent.has_enum_component(&w, &colors));
    // the constant's value lives on the constant entity
    let color_comp = ComponentDesc::<Val> {
        id: color,
        is_tag: false,
        is_enum: true,
        needs_drop: false,
        default_value: None,
    };
    EntityView::new(green).set(&mut w, &color_comp, Val::Num(2));
    assert_eq!(ent.get_enum_component(&w, &colors), Ok::<Option<Val>, EcsError>(Some(Val::Num(2))));
    // removing the enum removes whichever constant is held
    ev.remove(&mut w, &color_comp);
    assert!(!ent.has_enum_component(&w, &colors));
}

#[test]
fn override_markers_keep_the_component_distinct() {
    let mut w: World<Val> = World::new();
    w.spawn(E);
    let ev = EntityView::new(E);
    ev.set_override(&mut w, &pos(), Val::Num(1));
    assert_eq!(w.get_value(E, POS_ID), Some(Val::Num(1)));
    assert!(w.has_id(E, ecs_core::ids::with_override(POS_ID)));
    assert!(w.has_id(E, POS_ID));
}

#[test]
fn destruct_balances_all_counts() {
    let mut w: World<Val> = World::new();
    w.spawn(E);
    let ev = EntityView::new(E);
    ev.set(&mut w, &pos(), Val::Num(1));
    ev.set(&mut w, &vel(), Val::Num(2));
    let resource = ComponentDesc::<Val> {
        id: 500,
        is_tag: false,
        is_enum: false,
        needs_drop: true,
        default_value: None,
    };
    ev.set(&mut w, &resource, Val::Num(3));
    assert!(w.construct_count() > w.destruct_count());
    ev.destruct(&mut w, );
    assert_eq!(w.construct_count(), w.destruct_count());
    assert!(!w.is_alive(E));
}

#[test]
fn entity_iteration_callbacks() {
    let mut w: World<Val> = World::new();
    w.spawn(E);
    let ev = EntityView::new(E);
    ev.add(&mut w, &pos());
    ev.add(&mut w, &vel());
    let ent = Entity { id: E };
    // counting through interior-mutable state, since the callbacks are Fn
    let count = std::cell::Cell::new(0u32);
    ent.for_each_component(&w, |_c: Entity| {
        count.set(count.get() + 1);
    });
    assert_eq!(count.get(), 2);

    let parent: u64 = 7000;
    w.spawn(parent);
    EntityView::new(E).child_of_id(&mut w, Entity { id: parent });
    let seen = std::cell::Cell::new(0u64);
    Entity { id: parent }.for_each_children2(&w, |c: Entity| {
        seen.set(c.id);
    });
    assert_eq!(seen.get(), E);

    let target = std::cell::Cell::new(0u64);
    Entity { id: E }.for_each_target_in_relationship_by_entity(
        &w,
        Entity { id: CHILD_OF },
        |t: Entity| {
            target.set(t.id);
        },
    );
    assert_eq!(target.get(), parent);
}

#[test]
fn pair_shortcuts_and_slot() {
    let parent: u64 = 8000;
    let mut w: World<Val> = World::new();
    w.spawn(parent);
    w.spawn(E);
    let ev = EntityView::new(E);
    ev.child_of_id(&mut w, Entity { id: parent });
    ev.slot(&mut w);
    assert!(w.has_id(E, encode(ecs_core::ids::SLOT_OF, parent)));
    ev.is_a_id(&mut w, Entity { id: parent });
    assert!(w.has_id(E, encode(IS_A, parent)));
    ev.depends_on_id(&mut w, Entity { id: parent });
    assert!(w.has_id(E, encode(ecs_core::ids::DEPENDS_ON, parent)));
}

#[test]
fn add_second_and_remove_second() {
    let rel: u64 = 9000;
    let mut w: World<Val> = World::new();
    w.spawn(E);
    let ev = EntityView::new(E);
    ev.add_second(&mut w, &pos(), Entity { id: rel });
    assert!(w.has_id(E, encode(rel, POS_ID)));
    // the component's default was constructed into the pair column
    assert_eq!(w.get_value(E, encode(rel, POS_ID)), Some(Val::Pos(Position { x: 0, y: 0 })));
    ev.remove_second(&mut w, &pos(), Entity { id: rel });
    assert!(!w.has_id(E, encode(rel, POS_ID)));
}

#[test]
fn set_second_and_enum_first() {
    let first: u64 = 9100;
    let mut w: World<Val> = World::new();
    w.spawn(E);
    let ev = EntityView::new(E);
    ev.set_second(&mut w, &vel(), Entity { id: first }, Val::Num(4));
    assert_eq!(w.get_value(E, encode(first, VEL_ID)), Some(Val::Num(4)));

    let colors = EnumDesc { id: 9200, variants: vec![9201, 9202] };
    ev.set_enum_first(&mut w, &pos(), &colors, 0, Val::Num(8));
    assert_eq!(w.get_value(E, encode(POS_ID, 9201)), Some(Val::Num(8)));
}

#[test]
fn tuple_forms_required_and_optional() {
    let got: i64 = <Wrapper<i64> as TupleForm<i64, i64>>::return_type_for_tuple(Some(5));
    assert_eq!(got, 5);
    let opt: Option<i64> = <Wrapper<i64> as TupleForm<Option<i64>, i64>>::return_type_for_tuple(
        None,
    );
    assert_eq!(opt, None);
    let opt2: Option<i64> = <Wrapper<i64> as TupleForm<Option<i64>, i64>>::return_type_for_tuple(
        Some(7),
    );
    assert_eq!(opt2, Some(7));
}

#[test]
fn names_and_hierarchy_paths() {
    let sun: u64 = 30_000;
    let earth: u64 = 30_001;
    let moon: u64 = 30_002;
    let mut w: World<Val> = World::new();
    w.spawn(sun);
    w.spawn(earth);
    w.spawn(moon);
    EntityView::new(earth).child_of_id(&mut w, Entity { id: sun });
    EntityView::new(moon).child_of_id(&mut w, Entity { id: earth });

    let mut reg = NameRegistry::new();
    EntityView::new(sun).set_name(&mut reg, "sun");
    EntityView::new(earth).set_name(&mut reg, "earth");
    EntityView::new(moon).set_name(&mut reg, "moon");
    assert_eq!(Entity { id: moon }.get_name(&reg), "moon");

    let m = Entity { id: moon };
    assert_eq!(m.get_hierachy_path_default(&w, &reg).unwrap(), "::sun::earth::moon");
    assert_eq!(m.get_hierachy_path(&w, &reg, ".", "").unwrap(), "sun.earth.moon");
    assert_eq!(m.get_hierachy_path_from_parent_id_default(&w, &reg, sun).unwrap(), "earth::moon");
    assert_eq!(Entity { id: 0 }.get_hierachy_path_default(&w, &reg), None);

    // renaming and unnaming are visible in later paths
    EntityView::new(earth).set_name(&mut reg, "terra");
    assert_eq!(m.get_hierachy_path_from_parent_id_default(&w, &reg, sun).unwrap(), "terra::moon");
    EntityView::new(earth).remove_name(&mut reg);
    assert_eq!(m.get_hierachy_path_from_parent_id_default(&w, &reg, sun).unwrap(), "::moon");
}
