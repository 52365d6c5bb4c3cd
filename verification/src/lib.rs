//! Building SillyTavern world-info lorebooks from MediaWiki wikitext.

pub mod text;
pub mod wikitext;
pub mod entry;
pub mod pages;
pub mod extract;
pub mod api;
pub mod cache;
pub mod store;
pub mod theme;
pub mod app;
pub mod config;
pub mod clock;
pub mod crawl_tab;
pub mod library;
pub mod export;
pub mod toast;
pub mod icon;
