pub mod cache;
pub mod text_layout;
