pub mod args;
pub mod memory;
pub mod registry;
pub mod team;
