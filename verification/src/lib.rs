pub mod aggregate;
pub mod classify;
pub mod dedup;
pub mod errors;
pub mod events;
pub mod filter;
pub mod paths;
pub mod pipeline;
pub mod record;
pub mod sort;
pub mod strutil;
pub mod timeparse;
