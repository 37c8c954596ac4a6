pub mod cache;
pub mod codec;
pub mod db;
pub mod dto;
pub mod entry_map;
pub mod frame;
pub mod server;
pub mod stats;
pub mod stats_db;
