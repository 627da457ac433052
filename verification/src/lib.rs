//! Non-native field arithmetic gadgets: multi-limb modular arithmetic for
//! circuit witness generation, the constraint schemas that pin each result
//! down, and the serialization of the witness generators.

pub mod limbs;
pub mod bigint;
pub mod params;
pub mod arith;
pub mod schema;
pub mod gadgets;
pub mod target;
pub mod generator;
pub mod serial;
pub mod facade;
