//! Bundles decoded game-resource containers into one tar archive of PNG
//! textures.
//!
//! A run walks every input container (`container`), hands each texture it
//! finds to the decomposition (`texture`), which cuts field textures into
//! tiles (`pixels`) and names what it writes after the path of the container
//! (`path`, `text`), and appends the PNG files to the archive (`archive`).
//! `bundle` drives a run and reports its progress (`progress`). `selection`
//! and `keys` hold what is decided before a run.
//!
//! The library reads no file and starts no thread. Containers come in decoded,
//! the modification time of the entries comes in as a number, and progress
//! goes out as exact fractions.

pub mod archive;
pub mod bundle;
pub mod container;
pub mod error;
pub mod keys;
pub mod path;
pub mod pixels;
pub mod progress;
pub mod selection;
pub mod text;
pub mod texture;
