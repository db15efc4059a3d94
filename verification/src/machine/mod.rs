//! The cipher machine and the parts it is assembled from.

pub mod alphabet;
pub mod enigma;
pub mod plugboard;
pub mod reflector;
pub mod rotor;
pub mod text;
pub mod wiring;
