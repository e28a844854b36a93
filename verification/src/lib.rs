//! The decisions of a Minecraft transfer gateway: which line a player is sent to, what a
//! connection is answered, and how the gateway looks after its own files.
pub mod address;
pub mod balance;
pub mod bootstrap;
pub mod chat;
pub mod config;
pub mod dns;
pub mod document;
pub mod download;
pub mod identity;
pub mod ip2region;
pub mod json;
pub mod language;
pub mod login;
pub mod matching;
pub mod names;
pub mod network;
pub mod packet;
pub mod path;
pub mod problem;
pub mod protocol;
pub mod routing;
pub mod runtime;
pub mod security;
pub mod server;
pub mod status;
pub mod templates;
pub mod text;
pub mod trie;
pub mod url;
pub mod varint;
pub mod vhosts;
pub mod watch;
