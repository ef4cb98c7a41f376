pub mod delete;
pub mod save;
pub mod split;
pub mod merge;
