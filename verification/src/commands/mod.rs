pub mod branch;
pub mod commit;
pub mod init;
pub mod next_prev;
pub mod pr;
pub mod stack;
pub mod sync_laws;
pub mod sync_step;
pub mod tidy;
pub mod tree_laws;
