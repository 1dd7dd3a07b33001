pub mod text;
pub mod json;
pub mod clock;
pub mod classifier;
pub mod keyed;
pub mod policy;
pub mod state;
pub mod events;
pub mod watcher;
pub mod ingest;
pub mod transport;
pub mod service;
pub mod tray;
