//! A personal bookmark manager: named marks with tags, a fuzzy-picker bridge,
//! and an opener with a fallback to the platform's default handler.

pub mod text;
pub mod mark;
pub mod store;
pub mod laws;
pub mod config;
pub mod picker;
pub mod opener;
pub mod cli;
