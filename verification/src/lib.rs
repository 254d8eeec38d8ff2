//! Nova: the integer, text and state-machine logic of the Nova game engine,
//! with its contracts proved by Verus.
//!
//! Floating-point data never enters this crate: where an engine value is a
//! float that the logic here only carries, it is held by its IEEE-754 bit
//! pattern (`f32::to_bits`), and entities are held by their `u64` bit form.

pub mod map;
pub mod collections;
pub mod assets;
pub mod ai;
pub mod physics;
pub mod base;
pub mod input;
pub mod character;
pub mod formation;
pub mod animation;
pub mod audio;
