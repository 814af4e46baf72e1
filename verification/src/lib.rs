pub mod audit;
pub mod client_config;
pub mod commit;
pub mod config;
pub mod docs;
pub mod extract;
pub mod fleet;
pub mod health;
pub mod http;
pub mod ingest;
pub mod judge;
pub mod manifest;
pub mod output;
pub mod path;
pub mod plan;
pub mod snapshot;
pub mod text;
pub mod undo;
