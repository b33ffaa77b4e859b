//! A generalized cellular-automaton engine.
//!
//! Users define materials (cell species), groups (named sets of materials)
//! and rules (pattern-to-output rewrites guarded by neighborhood
//! conditions). The engine advances a square grid one generation at a time
//! under those rules, and encodes rule sets to and from a human-editable
//! text form.

pub mod codec;
pub mod condition;
pub mod events;
pub mod grid;
pub mod id;
pub mod material;
pub mod pattern;
pub mod ruleset;
