//! Algorithms shared by the schemes.

pub mod msm;
