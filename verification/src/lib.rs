//! A file server with users, directory permissions and public links.

pub mod account;
pub mod admin;
pub mod audit;
pub mod browsing;
pub mod clock;
pub mod config;
pub mod headers;
pub mod order;
pub mod path;
pub mod percent;
pub mod permit;
pub mod reply;
pub mod secrets;
pub mod session;
pub mod sharing;
pub mod store;
pub mod table;
pub mod text;
pub mod upload;
