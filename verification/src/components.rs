//! The components an entity may carry. An entity is a bag of optional
//! components; behaviour is capability presence, not a type hierarchy.

use vstd::prelude::*;

verus! {

/// Where an entity stands: the single source of truth for its location.
#[derive(PartialEq, Eq, Structural, Copy, Clone, Debug)]
pub struct Position {
    pub x: i32,
    pub y: i32,
}

/// An RGB colour with 8-bit channels, used by renderable glyphs and
/// cosmetic particle requests.
#[derive(PartialEq, Eq, Structural, Copy, Clone, Debug)]
pub struct Rgb {
    pub r: u8,
    pub g: u8,
    pub b: u8,
}

/// How an entity is drawn; lower `render_order` paints on top.
#[derive(PartialEq, Eq, Structural, Copy, Clone, Debug)]
pub struct Renderable {
    pub glyph: u16,
    pub fg: Rgb,
    pub bg: Rgb,
    pub render_order: i32,
}

/// The set of tiles an entity can currently see, its sight range, and a
/// dirty flag set whenever its position changes or on spawn.
#[derive(Debug)]
pub struct Viewshed {
    pub visible_tiles: Vec<Position>,
    pub range: i32,
    pub dirty: bool,
}

/// Hit points and melee numbers; an entity whose hp falls below 1 is
/// removed from the world (the player instead ends the run).
#[derive(PartialEq, Eq, Structural, Copy, Clone, Debug)]
pub struct CombatStats {
    pub max_hp: i32,
    pub hp: i32,
    pub defense: i32,
    pub power: i32,
}

/// An item sits in this entity's backpack.
#[derive(PartialEq, Eq, Structural, Copy, Clone, Debug)]
pub struct InBackpack {
    pub owner: usize,
}

/// An item is worn or wielded by `owner` in `slot`.
#[derive(PartialEq, Eq, Structural, Copy, Clone, Debug)]
pub struct Equipped {
    pub owner: usize,
    pub slot: i32,
}

/// A one-shot request to pick an item up, written by the input pass and
/// consumed by the item-collection pass within the same turn.
#[derive(PartialEq, Eq, Structural, Copy, Clone, Debug)]
pub struct WantsToPickupItem {
    pub collected_by: usize,
    pub item: usize,
}

/// A one-shot request to use an item, optionally aimed at a target tile.
#[derive(PartialEq, Eq, Structural, Copy, Clone, Debug)]
pub struct WantsToUseItem {
    pub item: usize,
    pub target: Option<Position>,
}

#[derive(PartialEq, Eq, Structural, Copy, Clone, Debug)]
pub enum HungerState {
    WellFed,
    Normal,
    Hungry,
    Starving,
}

/// Tracks how close an entity is to starving.
#[derive(PartialEq, Eq, Structural, Copy, Clone, Debug)]
pub struct HungerClock {
    pub state: HungerState,
    pub duration: i32,
}

/// A cosmetic particle the renderer should flash at a tile.
#[derive(PartialEq, Eq, Structural, Copy, Clone, Debug)]
pub struct ParticleRequest {
    pub x: i32,
    pub y: i32,
    pub fg: Rgb,
    pub bg: Rgb,
    pub glyph: u16,
    pub lifetime_ms: u32,
}

/// The per-tick queue of requested cosmetic particles; the renderer drains
/// it after the passes ran.
pub struct ParticleBuilder {
    pub requests: Vec<ParticleRequest>,
}

impl ParticleBuilder {
    pub fn new() -> (p: ParticleBuilder)
        ensures
            p.requests@.len() == 0,
    {
        ParticleBuilder { requests: Vec::new() }
    }

    /// Queue one particle.
    pub fn request(&mut self, x: i32, y: i32, fg: Rgb, bg: Rgb, glyph: u16, lifetime_ms: u32)
        ensures
            final(self).requests@ == old(self).requests@.push(
                ParticleRequest { x, y, fg, bg, glyph, lifetime_ms },
            ),
    {
        self.requests.push(ParticleRequest { x, y, fg, bg, glyph, lifetime_ms });
    }
}

} // verus!
