//! anetd: a DNS proxy and ad-blocking domain filter for Android.
//!
//! The library holds every decision the daemon makes: which hostnames the
//! Adblock-style rules block, what each intercepted dnsproxyd command is
//! answered, what the built-in DNS server does with a query, how DNS
//! responses are cached, and what the WebUI socket replies.  The sockets,
//! files and clocks are the caller's.
pub mod cli;
pub mod config;
pub mod dns;
pub mod dns_server;
pub mod handlers;
pub mod network;
pub mod numfmt;
pub mod rules;
pub mod session;
pub mod split;
pub mod sys;
pub mod text;
pub mod webui;
