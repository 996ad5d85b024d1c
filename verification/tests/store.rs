//! Behaviour of the dense stores and the registry, exercised through
//! `BlobMap` with the sample component universe.

use dense_ecs::blobmap::BlobMap;
use dense_ecs::{Sample, GLYPH_KEY, MARKER_KEY, POSITION_KEY, TEXT_KEY};

#[test]
fn insert_then_get_returns_inserted_value() {
    let mut map: BlobMap<Sample> = BlobMap::new();
    map.insert_or_replace(7, Sample::Position { x: 2, y: 3 });
    assert!(map.get(POSITION_KEY, 7) == Some(&Sample::Position { x: 2, y: 3 }));
    assert!(map.get(POSITION_KEY, 8) == None);
    assert!(map.get(GLYPH_KEY, 7) == None);
}

#[test]
fn insert_then_get_works_for_data_free_components() {
    let mut map: BlobMap<Sample> = BlobMap::new();
    map.insert_or_replace(1, Sample::Marker);
    assert!(map.get(MARKER_KEY, 1) == Some(&Sample::Marker));
    assert!(map.get(MARKER_KEY, 2) == None);
}

#[test]
fn replace_hands_back_the_old_value_exactly_once() {
    let mut map: BlobMap<Sample> = BlobMap::new();
    assert!(map.insert_or_replace(4, Sample::Glyph('?')) == None);
    // the old value is destroyed and surrendered once, before the new
    // value becomes observable
    assert!(map.insert_or_replace(4, Sample::Glyph('!')) == Some(Sample::Glyph('?')));
    assert!(map.get(GLYPH_KEY, 4) == Some(&Sample::Glyph('!')));
    // the surrendered value cannot come back a second time
    assert!(map.remove(GLYPH_KEY, 4) == Some(Sample::Glyph('!')));
    assert!(map.remove(GLYPH_KEY, 4) == None);
}

#[test]
fn remove_makes_get_absent_and_destroys_once() {
    let mut map: BlobMap<Sample> = BlobMap::new();
    map.insert_or_replace(9, Sample::Text("gone".to_string()));
    assert!(map.remove(TEXT_KEY, 9) == Some(Sample::Text("gone".to_string())));
    assert!(map.get(TEXT_KEY, 9) == None);
    assert!(map.remove(TEXT_KEY, 9) == None);
}

#[test]
fn removal_keeps_the_other_slots_reachable() {
    // a store stays densely packed over arbitrary insert/remove mixes:
    // every surviving key must still resolve to its own value
    let mut map: BlobMap<Sample> = BlobMap::new();
    for id in 0..8u32 {
        map.insert_or_replace(id, Sample::Position { x: id as i32, y: -(id as i32) });
    }
    map.remove(POSITION_KEY, 0);
    map.remove(POSITION_KEY, 3);
    map.remove(POSITION_KEY, 7);
    map.insert_or_replace(20, Sample::Position { x: 20, y: -20 });
    map.remove(POSITION_KEY, 5);
    for id in [1u32, 2, 4, 6, 20] {
        assert!(
            map.get(POSITION_KEY, id) == Some(&Sample::Position { x: id as i32, y: -(id as i32) })
        );
    }
    for id in [0u32, 3, 5, 7] {
        assert!(map.get(POSITION_KEY, id) == None);
    }
}

#[test]
fn stores_of_different_types_do_not_interfere() {
    let mut map: BlobMap<Sample> = BlobMap::new();
    map.insert_or_replace(1, Sample::Glyph('a'));
    map.insert_or_replace(1, Sample::Text("a".to_string()));
    map.insert_or_replace(2, Sample::Glyph('b'));
    map.remove(TEXT_KEY, 1);
    assert!(map.get(GLYPH_KEY, 1) == Some(&Sample::Glyph('a')));
    assert!(map.get(GLYPH_KEY, 2) == Some(&Sample::Glyph('b')));
    assert!(map.get(TEXT_KEY, 1) == None);
}

#[test]
fn remove_key_clears_every_type_of_that_key() {
    let mut map: BlobMap<Sample> = BlobMap::new();
    map.insert_or_replace(5, Sample::Glyph('x'));
    map.insert_or_replace(5, Sample::Marker);
    map.insert_or_replace(6, Sample::Glyph('y'));
    map.remove_key(5);
    assert!(map.get(GLYPH_KEY, 5) == None);
    assert!(map.get(MARKER_KEY, 5) == None);
    assert!(map.get(GLYPH_KEY, 6) == Some(&Sample::Glyph('y')));
}

#[test]
fn remove_type_discards_a_whole_store() {
    let mut map: BlobMap<Sample> = BlobMap::new();
    map.insert_or_replace(1, Sample::Glyph('x'));
    map.insert_or_replace(2, Sample::Glyph('y'));
    map.insert_or_replace(1, Sample::Marker);
    map.remove_type(GLYPH_KEY);
    assert!(map.get(GLYPH_KEY, 1) == None);
    assert!(map.get(GLYPH_KEY, 2) == None);
    assert!(map.get(MARKER_KEY, 1) == Some(&Sample::Marker));
}

#[test]
fn get_mut_replaces_only_where_a_value_exists() {
    let mut map: BlobMap<Sample> = BlobMap::new();
    map.insert_or_replace(3, Sample::Glyph('p'));
    assert!(map.get_mut(3, Sample::Glyph('q')) == Some(Sample::Glyph('p')));
    assert!(map.get(GLYPH_KEY, 3) == Some(&Sample::Glyph('q')));
    // no slot for this key: the store stays untouched
    assert!(map.get_mut(4, Sample::Glyph('z')) == None);
    assert!(map.get(GLYPH_KEY, 4) == None);
}
