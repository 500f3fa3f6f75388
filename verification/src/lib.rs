pub mod circuit_breaker;
pub mod config;
pub mod error;
pub mod fetch;
pub mod job_state;
pub mod responses;
pub mod time;
pub mod rules;
pub mod schedule_laws;
pub mod scheduler;
pub mod service;
pub mod store;
pub mod types;
