pub mod runner;
pub mod state;
pub mod store;
pub mod task;
pub mod text;
