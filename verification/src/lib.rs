//! Verified core of a Typst editor: settings, documents, search, formatting,
//! project trees, compiler request scheduling and the small rules of its interface.

pub mod settings;
pub mod text;
pub mod paths;
pub mod sorting;
pub mod project;
pub mod project_search;
pub mod document;
pub mod external_changes;
pub mod tabs;
pub mod opening;
pub mod exporting;
pub mod previewing;
pub mod compile_target;
pub mod session_writes;
pub mod shortcuts;
pub mod compiler;
pub mod source_map;
pub mod search;
pub mod find_replace;
pub mod edits;
pub mod formatting;
pub mod interface;
pub mod session;
pub mod display;
pub mod workspace;
pub mod menus;
pub mod menu_overlay;
pub mod app_menus;
pub mod language;
pub mod ui;
