pub mod decimal;
pub mod paths;
pub mod search;
pub mod stack_laws;
pub mod stack_utils;
pub mod text;
