pub mod dialog;
pub mod event_loop;
pub mod input;
pub mod page_view;
pub mod sidebar;
pub mod thumbnail_bar;
