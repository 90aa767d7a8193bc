pub mod db;
pub mod laws;
pub mod types;
