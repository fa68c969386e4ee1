//! Verified core of the writee handwriting whiteboard.
pub mod strings;
pub mod caret;
pub mod document;
pub mod undo;
pub mod tags;
pub mod search;
pub mod palette;
pub mod tool;
pub mod model;
pub mod theme;
pub mod settings;
pub mod keys;
pub mod order;
pub mod names;
pub mod workspace;
pub mod links;
pub mod hashing;
pub mod recovery;
pub mod icon;
pub mod markdown;
pub mod search_cache;
pub mod index_editor;
pub mod ui;
pub mod export;
pub mod note;
pub mod sidebar;
