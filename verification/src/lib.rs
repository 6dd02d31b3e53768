pub mod app;
pub mod area;
pub mod args;
pub mod clipboard;
pub mod columns;
pub mod commits;
pub mod config;
pub mod diff;
pub mod document;
pub mod editor;
pub mod git;
pub mod input;
pub mod laws;
pub mod ruler;
pub mod screen;
pub mod settings;
pub mod text;
pub mod ui;
