pub mod document;
pub mod operation;
pub mod page_ref;
pub mod workspace;
pub mod comments;
pub mod form;
pub mod stamp;
pub mod objects;
