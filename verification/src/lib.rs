pub mod detect;
pub mod launch;
pub mod models;
pub mod paths;
pub mod store;
pub mod tags;
pub mod text;
pub mod transfer;
pub mod tray;
