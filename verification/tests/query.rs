//! The join engine: per-entity evaluation, iteration order, and write
//! passes, including the scenarios the store is meant to support.

use dense_ecs::query::Query;
use dense_ecs::world::World;
use dense_ecs::{Sample, GLYPH_KEY, MARKER_KEY, POSITION_KEY, TEXT_KEY};

#[test]
fn query_construction_rejects_duplicates_and_emptiness() {
    assert!(Query::new(vec![]).is_none());
    assert!(Query::new(vec![POSITION_KEY, GLYPH_KEY, POSITION_KEY]).is_none());
    assert!(Query::new(vec![POSITION_KEY, GLYPH_KEY]).is_some());
}

#[test]
fn a_query_over_an_empty_world_yields_nothing() {
    let world: World<Sample> = World::new();
    let mut it = world.query(Query::new(vec![POSITION_KEY]).unwrap());
    assert!(it.next(&world).is_none());
}

#[test]
fn entity_appears_iff_it_holds_both_types() {
    let world: World<Sample> = World::new();
    let (world, both) = world
        .spawn()
        .with(Sample::Position { x: 1, y: 2 })
        .with(Sample::Marker)
        .build();
    let (world, only_pos) = world.spawn().with(Sample::Position { x: 3, y: 4 }).build();
    let (world, only_marker) = world.spawn().with(Sample::Marker).build();
    let (world, neither) = world.spawn().build();

    let q = Query::new(vec![POSITION_KEY, MARKER_KEY]).unwrap();
    assert!(q.query_entity(&world, &both).is_some());
    assert!(q.query_entity(&world, &only_pos).is_none());
    assert!(q.query_entity(&world, &only_marker).is_none());
    assert!(q.query_entity(&world, &neither).is_none());

    let values = q.query_entity(&world, &both).unwrap();
    assert!(values == vec![Sample::Position { x: 1, y: 2 }, Sample::Marker]);
}

#[test]
fn iteration_yields_entities_in_registration_order() {
    let world: World<Sample> = World::new();
    let (world, e0) = world.spawn().with(Sample::Glyph('0')).build();
    let (world, e1) = world.spawn().with(Sample::Glyph('1')).build();
    let (world, e2) = world.spawn().with(Sample::Glyph('2')).build();

    let mut it = world.query(Query::new(vec![GLYPH_KEY]).unwrap());
    let first = it.next(&world).unwrap();
    let second = it.next(&world).unwrap();
    let third = it.next(&world).unwrap();
    assert!(first.0 == e0 && first.1 == vec![Sample::Glyph('0')]);
    assert!(second.0 == e1 && second.1 == vec![Sample::Glyph('1')]);
    assert!(third.0 == e2 && third.1 == vec![Sample::Glyph('2')]);
    // the pass is finite and not restartable
    assert!(it.next(&world).is_none());
    assert!(it.next(&world).is_none());
}

#[test]
fn iteration_skips_entities_failing_the_join_silently() {
    let world: World<Sample> = World::new();
    let (world, a) = world.spawn().with(Sample::Marker).build();
    let (world, _plain) = world.spawn().build();
    let (world, c) = world.spawn().with(Sample::Marker).build();

    let mut it = world.query(Query::new(vec![MARKER_KEY]).unwrap());
    assert!(it.next(&world).unwrap().0 == a);
    assert!(it.next(&world).unwrap().0 == c);
    assert!(it.next(&world).is_none());
}

#[test]
fn overwriting_a_glyph_destroys_the_old_one_exactly_once() {
    // spawn an entity with a text and a glyph, then overwrite the glyph
    let world: World<Sample> = World::new();
    let (mut world, e) = world
        .spawn()
        .with(Sample::Text("Hello".to_string()))
        .with(Sample::Glyph('?'))
        .build();
    // the old glyph is destroyed exactly once: it is surrendered here and
    // can never be observed again
    let displaced = world.add_component(&e, Sample::Glyph('!'));
    assert!(displaced == Some(Sample::Glyph('?')));
    assert!(world.entity_component(GLYPH_KEY, &e) == Some(&Sample::Glyph('!')));
    assert!(world.entity_component(TEXT_KEY, &e) == Some(&Sample::Text("Hello".to_string())));
}

#[test]
fn marker_narrows_a_position_query() {
    let world: World<Sample> = World::new();
    let (world, a) = world.spawn().with(Sample::Position { x: 2, y: 3 }).build();
    let (world, b) = world
        .spawn()
        .with(Sample::Position { x: 9, y: 1 })
        .with(Sample::Marker)
        .build();

    // position alone yields both, in order
    let mut positions = world.query(Query::new(vec![POSITION_KEY]).unwrap());
    let first = positions.next(&world).unwrap();
    let second = positions.next(&world).unwrap();
    assert!(first.0 == a && first.1 == vec![Sample::Position { x: 2, y: 3 }]);
    assert!(second.0 == b && second.1 == vec![Sample::Position { x: 9, y: 1 }]);
    assert!(positions.next(&world).is_none());

    // position and marker together yield only the marked entity
    let mut both = world.query(Query::new(vec![POSITION_KEY, MARKER_KEY]).unwrap());
    let only = both.next(&world).unwrap();
    assert!(only.0 == b && only.1 == vec![Sample::Position { x: 9, y: 1 }, Sample::Marker]);
    assert!(both.next(&world).is_none());
}

#[test]
fn a_write_pass_is_observed_by_later_reads() {
    let world: World<Sample> = World::new();
    let (world, a) = world.spawn().with(Sample::Position { x: 1, y: 2 }).build();
    let (world, _bare) = world.spawn().build();
    let (mut world, c) = world.spawn().with(Sample::Position { x: 3, y: 4 }).build();

    let mut it = world.query_mut(Query::new(vec![POSITION_KEY]).unwrap());
    let mut touched = 0;
    while let Some((_e, before)) = it.next(&mut world, vec![Some(Sample::Position { x: 69, y: 420 })]) {
        assert!(before.len() == 1);
        touched += 1;
    }
    assert!(touched == 2);
    assert!(world.entity_component(POSITION_KEY, &a) == Some(&Sample::Position { x: 69, y: 420 }));
    assert!(world.entity_component(POSITION_KEY, &c) == Some(&Sample::Position { x: 69, y: 420 }));
}

#[test]
fn a_write_pass_can_mix_read_and_write_fetches() {
    let world: World<Sample> = World::new();
    let (mut world, e) = world
        .spawn()
        .with(Sample::Position { x: 7, y: 8 })
        .with(Sample::Glyph('r'))
        .build();

    let mut it = world.query_mut(Query::new(vec![POSITION_KEY, GLYPH_KEY]).unwrap());
    let (who, before) = it
        .next(&mut world, vec![Some(Sample::Position { x: 0, y: 0 }), None])
        .unwrap();
    assert!(who == e);
    assert!(before == vec![Sample::Position { x: 7, y: 8 }, Sample::Glyph('r')]);
    // the position was write-fetched, the glyph only read
    assert!(world.entity_component(POSITION_KEY, &e) == Some(&Sample::Position { x: 0, y: 0 }));
    assert!(world.entity_component(GLYPH_KEY, &e) == Some(&Sample::Glyph('r')));
}
