//! Entity lifecycle: spawning, building, component management, despawn.

use dense_ecs::world::World;
use dense_ecs::{Sample, GLYPH_KEY, MARKER_KEY, POSITION_KEY, TEXT_KEY};

#[test]
fn spawn_assigns_fresh_ids_in_order() {
    let world: World<Sample> = World::new();
    let (world, e0) = world.spawn().build();
    let (world, e1) = world.spawn().build();
    let (world, e2) = world.spawn().build();
    assert!(e0 != e1 && e1 != e2 && e0 != e2);
    let live = world.entities();
    assert!(live.len() == 3);
    assert!(live[0] == e0 && live[1] == e1 && live[2] == e2);
}

#[test]
fn builder_attaches_components_before_exposing_the_id() {
    let world: World<Sample> = World::new();
    let (world, e) = world
        .spawn()
        .with(Sample::Text("Hello, World!".to_string()))
        .with(Sample::Marker)
        .build();
    assert!(world.entity_component(TEXT_KEY, &e) == Some(&Sample::Text("Hello, World!".to_string())));
    assert!(world.entity_component(MARKER_KEY, &e) == Some(&Sample::Marker));
    assert!(world.entity_component(GLYPH_KEY, &e) == None);
}

#[test]
fn add_and_remove_component_after_construction() {
    let world: World<Sample> = World::new();
    let (mut world, e) = world.spawn().build();
    assert!(world.add_component(&e, Sample::Glyph('g')) == None);
    assert!(world.entity_component(GLYPH_KEY, &e) == Some(&Sample::Glyph('g')));
    assert!(world.remove_component(GLYPH_KEY, &e) == Some(Sample::Glyph('g')));
    assert!(world.entity_component(GLYPH_KEY, &e) == None);
    // removing again is a silent no-op
    assert!(world.remove_component(GLYPH_KEY, &e) == None);
}

#[test]
fn despawn_excludes_the_entity_and_empties_its_lookups() {
    let world: World<Sample> = World::new();
    let (world, a) = world.spawn().with(Sample::Glyph('a')).build();
    let (mut world, b) = world
        .spawn()
        .with(Sample::Glyph('b'))
        .with(Sample::Marker)
        .build();
    world.despawn(&b);
    let live = world.entities();
    assert!(live.len() == 1 && live[0] == a);
    assert!(world.entity_component(GLYPH_KEY, &b) == None);
    assert!(world.entity_component(MARKER_KEY, &b) == None);
    assert!(world.entity_component(GLYPH_KEY, &a) == Some(&Sample::Glyph('a')));
}

#[test]
fn despawn_of_an_unknown_entity_changes_nothing_else() {
    let world: World<Sample> = World::new();
    let (mut world, a) = world.spawn().with(Sample::Marker).build();
    let ghostly = a;
    world.despawn(&ghostly);
    // a second despawn of the same id finds nothing and stays silent
    world.despawn(&ghostly);
    assert!(world.entities().len() == 0);
    // the id space moves on regardless
    let (world, b) = world.spawn().build();
    assert!(b != a);
    assert!(world.entities().len() == 1);
}

#[test]
fn entity_component_mut_writes_only_where_present() {
    let world: World<Sample> = World::new();
    let (world, a) = world.spawn().with(Sample::Position { x: 1, y: 1 }).build();
    let (mut world, b) = world.spawn().build();
    let old = world.entity_component_mut(&a, Sample::Position { x: 5, y: 6 });
    assert!(old == Some(Sample::Position { x: 1, y: 1 }));
    assert!(world.entity_component(POSITION_KEY, &a) == Some(&Sample::Position { x: 5, y: 6 }));
    // b holds no position: the write is refused and discarded
    assert!(world.entity_component_mut(&b, Sample::Position { x: 9, y: 9 }) == None);
    assert!(world.entity_component(POSITION_KEY, &b) == None);
}
