pub mod apply;
pub mod brew;
pub mod commands;
pub mod config;
pub mod context;
pub mod digest;
pub mod document;
pub mod domains;
pub mod exec;
pub mod logging;
pub mod snapshot;
pub mod status;
pub mod store;
pub mod unapply;
pub mod value;
