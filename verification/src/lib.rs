pub mod api;
pub mod ai;
pub mod cors;
pub mod json;
pub mod laws;
pub mod model;
pub mod status;
pub mod store;
pub mod text;
pub mod validate;
