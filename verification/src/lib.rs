//! The logic behind a browser for a distribution's package database: which
//! entries of a file list to show, what a dependency resolves to, which
//! packages a filter lists, and what a request to view a package does to the
//! tab layout.
//!
//! Drawing, reading the database and the settings file are left to the
//! program that uses the library.

pub mod cmd;
pub mod config;
pub mod count;
pub mod dispatch;
pub mod dock;
pub mod files;
pub mod package;
pub mod paths;
pub mod pkg_id;
pub mod search;
pub mod tabs;
pub mod text;
