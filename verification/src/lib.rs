//! Verified core of the class-diagram scene builder: URL hash routing,
//! the key registry, class-tree layout, collapse/fade bookkeeping,
//! association resolution, colour tables and class-entry planning.

pub mod text;
pub mod argonaut;
pub mod assets;
pub mod associations;
pub mod classes;
pub mod collapse;
pub mod colors;
pub mod layout;
pub mod registry;
pub mod url_hash;
pub mod visuals;
