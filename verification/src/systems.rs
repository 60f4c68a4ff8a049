//! The per-turn simulation passes. The scheduler runs them in a fixed
//! order over the one shared world; each pass reads the intents it resolves
//! and clears them within the same turn.

pub mod damage_system;
pub mod inventory_system;
pub mod map_indexing_system;
pub mod trigger_system;
pub mod visibility_system;
