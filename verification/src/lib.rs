//! The verified core of a Web Key Directory server.

pub mod api;
pub mod config;
pub mod hooks;
pub mod openpgp;
pub mod query;
pub mod storage;
pub mod text;
pub mod timestamp;
pub mod upload;
pub mod userdb;
pub mod wkd_hash;
