//! Core of a static-site publishing service: archive entry safety, content
//! rewriting for dual-path serving, upload field collection, deployment
//! decisions and the site record store, with the account store, token
//! claims and configuration checks around them.

pub mod admin;
pub mod archive;
pub mod auth;
pub mod config;
pub mod deploy;
pub mod error;
pub mod ids;
pub mod json;
pub mod models;
pub mod rewrite;
pub mod site_name;
pub mod store;
pub mod token;
pub mod upload;
pub mod users;
