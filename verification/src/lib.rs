//! Request routing, static-file resolution and reverse-proxy header handling
//! for the `cow` HTTP server, each function with a stated contract.
//!
//! The executable that binds the socket and talks to the network lives in
//! `app/`; everything that decides what to answer lives here.

pub mod headers;
pub mod response;
pub mod error;
pub mod proxy;
pub mod config;
pub mod pattern;
pub mod routing;
pub mod text;
pub mod paths;
pub mod static_files;
