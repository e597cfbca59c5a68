pub mod diff_view;
pub mod file_list;
pub mod help_overlay;
pub mod status_bar;
pub mod theme;
