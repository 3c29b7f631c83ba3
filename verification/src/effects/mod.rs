//! Collection of demo scene effects and their configurations
//!
//! Each effect module provides a `Config` struct to customize the effect's
//! appearance and implements the `DemoEffect` trait for rendering.
pub mod plasma;
