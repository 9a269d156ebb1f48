pub mod engine;
pub mod laws;
pub mod models;
pub mod pipeline;
pub mod prepare;
