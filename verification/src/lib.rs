//! Terminal mirroring: the decisions and the byte streams behind a wrapper
//! that shows one terminal session on several devices.
pub mod text;
pub mod terminal;
pub mod history;
pub mod render;
pub mod styles;
pub mod mirror;
pub mod placement;
pub mod scrolling;
pub mod jsonc;
pub mod paths;
pub mod control;
pub mod protocol;
pub mod input;
pub mod session_model;
pub mod session;
pub mod sessions;
pub mod wrap;
pub mod live;
pub mod keys;
pub mod attach;
pub mod choices;
pub mod attached;
pub mod streams;
pub mod json;
pub mod viewer;
pub mod viewing;
pub mod config;
pub mod filter;
pub mod token;
pub mod config_text;
pub mod config_syntax;
pub mod terminals;
pub mod server;
pub mod serving;
