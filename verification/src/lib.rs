//! A minimal entity-component data store.
//!
//! The crate keeps one dense, contiguous store per component type, routes
//! every operation through a registry keyed by a stable per-type identity,
//! and offers a join engine that visits the entities holding all of a
//! query's requested component types.
//!
//! Component values are held in concretely typed storage: type erasure
//! happens only at the registry boundary, where a store is picked by its
//! type key, never inside the storage manipulation itself.

use vstd::prelude::*;

mod index_map;

/// Dense per-type storage and the registry that routes to it.
pub mod blobmap;

/// The join engine that queries components from the [`world::World`].
pub mod query;

/// The [`world::World`] that manages entities and their components.
pub mod world;

verus! {

/// A value type that can be attached to entities as a component.
///
/// A component carries a stable identity for its type, used only for
/// routing storage operations: values reporting the same key are kept in
/// the same dense store, so the key must depend on the variant of the
/// value alone, never on the data it carries.
pub trait Component: Sized {
    /// The per-type identity of this value, as seen by contracts.
    spec fn key_spec(&self) -> u64;

    /// Returns the stable per-type identity of this value.
    fn type_key(&self) -> (k: u64)
        ensures
            k == self.key_spec(),
    ;

    /// Returns a copy of this value equal to the original.
    fn dup(&self) -> (c: Self)
        ensures
            c == *self,
    ;
}

/// Type key of [`Sample::Position`].
pub const POSITION_KEY: u64 = 0;

/// Type key of [`Sample::Glyph`].
pub const GLYPH_KEY: u64 = 1;

/// Type key of [`Sample::Text`].
pub const TEXT_KEY: u64 = 2;

/// Type key of [`Sample::Marker`].
pub const MARKER_KEY: u64 = 3;

/// A small component universe, ready to use for demonstrations and
/// exercised by this crate's tests.
///
/// Each variant is one component type: a position, a glyph, a text, and a
/// data-free marker that only records presence.
#[derive(Debug, PartialEq, Eq)]
pub enum Sample {
    /// A two-dimensional position.
    Position { x: i32, y: i32 },
    /// A single character.
    Glyph(char),
    /// An owned piece of text.
    Text(String),
    /// A marker that carries no data.
    Marker,
}

impl Component for Sample {
    open spec fn key_spec(&self) -> u64 {
        match self {
            Sample::Position { .. } => POSITION_KEY,
            Sample::Glyph(..) => GLYPH_KEY,
            Sample::Text(..) => TEXT_KEY,
            Sample::Marker => MARKER_KEY,
        }
    }

    fn type_key(&self) -> (k: u64) {
        match self {
            Sample::Position { .. } => POSITION_KEY,
            Sample::Glyph(..) => GLYPH_KEY,
            Sample::Text(..) => TEXT_KEY,
            Sample::Marker => MARKER_KEY,
        }
    }

    fn dup(&self) -> (c: Self) {
        match self {
            Sample::Position { x, y } => Sample::Position { x: *x, y: *y },
            Sample::Glyph(g) => Sample::Glyph(*g),
            Sample::Text(t) => Sample::Text(t.clone()),
            Sample::Marker => Sample::Marker,
        }
    }
}

} // verus!
