//! Group arithmetic, encoding and validation for the Pallas and Vesta curves.
pub mod curve;
pub mod field;
pub mod laws;
pub mod projective;
pub mod u256;
