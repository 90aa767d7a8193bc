pub mod pr;
pub mod tidy;
