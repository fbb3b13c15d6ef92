//! What you did each workday.

pub mod app;
pub mod area;
pub mod calendar;
pub mod config;
pub mod context;
pub mod date;
pub mod format;
pub mod gitlab;
pub mod gitlab_api;
pub mod help;
pub mod history;
pub mod json;
pub mod key;
pub mod settings;
pub mod storage;
pub mod style;
pub mod text;
pub mod vim;
