//! A peer-to-peer catalog replication core: a length-prefixed binary wire
//! format (`codec`), signed catalog records (`catalog`, `user`, `post`),
//! request and response framing (`protocol`), the answers a node gives
//! (`handler`), and the decisions of an exchange with a peer (`exchange`).
pub mod catalog;
pub mod codec;
pub mod error;
pub mod exchange;
pub mod handler;
pub mod keys;
pub mod post;
pub mod protocol;
pub mod text;
pub mod user;
pub mod config;
pub mod history;
pub mod address;
