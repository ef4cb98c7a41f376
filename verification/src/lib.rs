pub mod app;
pub mod cli;
pub mod ext;
pub mod model;
pub mod ops;
pub mod paths;
pub mod render;
pub mod text;
pub mod tui;
