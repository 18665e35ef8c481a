//! Core of a BitTorrent tracker: an in-memory swarm repository with
//! peer lifecycle, the BEP 15 UDP protocol codec with MAC-bound
//! connection cookies, bencoded HTTP tracker responses, private-mode
//! authentication keys, a whitelist gate, a per-IP ban service, and the
//! statistics counters fed by announce and scrape traffic.
//!
//! Every function in this crate carries a contract and is verified; the
//! sockets, clocks and persistence drivers that feed it live outside.

pub mod primitives;
pub mod config;
pub mod info_hash;
pub mod peer;
pub mod swarm;
pub mod tracker;
pub mod authentication;
pub mod whitelist;
pub mod cookie;
pub mod banning;
pub mod udp_codec;
pub mod udp_handler;
pub mod bencode;
pub mod http_requests;
pub mod http_responses;
pub mod http_auth;
pub mod http_services;
pub mod statistics;
pub mod stats_resources;
pub mod lifecycle;
