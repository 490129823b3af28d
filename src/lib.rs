//! Turn resolution for a party-based dungeon crawler: parties of combatants, abilities
//! with cooldowns, queued attacks resolved once per phase, threat-driven targeting, and
//! the turn machine that sequences the player's phase and the AI's.

pub mod abilities;
pub mod combat;
pub mod geometry;
pub mod log;
pub mod members;
pub mod object;
pub mod rng;
pub mod spawns;
pub mod state;
pub mod tilemap;
