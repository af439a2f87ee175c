//! The checker processors.

pub mod simple;
pub mod fixed;
pub mod installers;
