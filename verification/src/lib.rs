//! A three-rotor cipher machine: plugboard, rotor stack and reflector,
//! with the signal path and the stepping mechanism proved reciprocal.

pub mod machine;
