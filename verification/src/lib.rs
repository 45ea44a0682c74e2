//! The decisions of a self-hosted HTTP tunnel.
//!
//! A server takes HTTP requests for subdomains of its domain and hands each one, over a single
//! connection, to the client that registered the subdomain; the client sends it to a server on its
//! own machine and hands the answer back. This library holds what both sides decide: who may open a
//! tunnel and under which name ([`server`]), how a request travels and how it ends ([`exchange`]),
//! what a client does with what it receives ([`client`]), and when it connects again ([`retry`]).
//! Sockets, HTTP and timers are left to the program around it, which reports what happened and does
//! what it is told. [`laws`] states what follows for the tunnel as a whole, [`session`] for a
//! client over the whole of its connection, [`service`] for a server with many requests at a time,
//! and [`transfer`] takes bodies that are at hand through all of their steps.

pub mod body;
pub mod client;
pub mod decimal;
pub mod exchange;
pub mod headers;
pub mod host;
pub mod ident;
pub mod laws;
pub mod message;
pub mod retry;
pub mod server;
pub mod service;
pub mod session;
pub mod table;
pub mod text;
pub mod transfer;
pub mod tunnel_spec;
