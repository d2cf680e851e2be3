pub mod attachments;
pub mod cli;
pub mod mentions;
pub mod names;
pub mod notify;
pub mod posts;
pub mod publish;
pub mod snapshot;
pub mod sync;
pub mod threads;
pub mod types;
