pub mod api;
pub mod data;
pub mod database;
pub mod index;
pub mod laws;
pub mod request;
pub mod response;
