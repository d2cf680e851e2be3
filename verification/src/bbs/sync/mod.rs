pub mod avatars;
pub mod deletions;
pub mod detach;
pub mod exchange;
pub mod install;
pub mod inspect;
pub mod inventory;
pub mod model;
pub mod page;
pub mod refresh;
pub mod resources;
pub mod unavailable;
