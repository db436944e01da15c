//! Core logic of a MySQL plugin for SA-MP and open.mp game servers: result
//! caches, option handles, runtime limits, SQL lexing and escaping,
//! connection files, `mysql_format`, the ORM, prepared statements,
//! transactions, the order of query callbacks and password hashing, together
//! with what each script-facing function decides. Talking to the server,
//! threads and the script's memory are left to the host.

pub mod cache;
pub mod config;
pub mod connection;
pub mod error;
pub mod format;
pub mod idmap;
pub mod limits;
pub mod logger;
pub mod num;
pub mod options;
pub mod orm;
pub mod password;
pub mod plugin;
pub mod query;
pub mod sql;
pub mod stmt;
pub mod text;
pub mod transaction;
