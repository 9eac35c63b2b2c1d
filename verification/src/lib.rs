//! A terminal EPUB reader's logic: CSS cascade, HTML to terminal text,
//! layout by display width, interface text, pictures and bookmarks.

pub mod text;
pub mod config;
pub mod css;
pub mod epub;
pub mod i18n;
pub mod width;
pub mod images;
pub mod settings;
pub mod ui;
pub mod render;
pub mod state;
pub mod paths;
pub mod screen;
pub mod book;
pub mod pictures;
