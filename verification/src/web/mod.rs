pub mod api;
pub mod assets;
