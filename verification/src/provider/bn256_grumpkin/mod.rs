//! The BN254 curve and the Grumpkin curve, which form a cycle: each one's
//! scalar field is the other's base field.

pub mod bn256;
pub mod grumpkin;
