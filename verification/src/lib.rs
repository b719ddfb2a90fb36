pub mod cmd;
pub mod config;
pub mod decimal;
pub mod eval;
pub mod evict;
pub mod lfu;
pub mod lru;
pub mod platform;
pub mod poller;
pub mod processor;
pub mod protocol;
pub mod random_eviction;
pub mod request;
pub mod request_laws;
pub mod resp;
pub mod resp_laws;
pub mod server;
pub mod store;
pub mod ttl_evict;
pub mod store_laws;
