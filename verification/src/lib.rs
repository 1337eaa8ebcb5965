pub mod strings;
pub mod app;
pub mod notes;
pub mod text;
pub mod ui;
