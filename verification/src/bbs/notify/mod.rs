pub mod delivery;
pub mod prepare;
pub mod record;
pub mod runtime;
pub mod store;
