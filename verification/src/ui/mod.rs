pub mod app;
pub mod cpu_view;
pub mod header;
pub mod process_view;
pub mod profile_view;
pub mod sparkline;
