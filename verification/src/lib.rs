//! A headless coding agent: it talks to a model that streams its responses, runs the
//! tools that the model calls, and keeps the conversation in a journal.
//!
//! Everything that decides or computes is here, as functions from values to values;
//! sockets, files, clocks and threads are the program's, which holds this library.
//!
//! - Talking to the model: [`wire`], [`message`], [`event`], [`convert`], [`sse`],
//!   [`builder`], [`stream_runner`], [`stream`], [`client`], [`auth`], [`error`].
//! - What is sent: [`provider`], [`schema`].
//! - The run of the agent: [`agent_loop`], [`execute`], [`agent_event`].
//! - The journal of a session: [`entries`], [`loader`], [`writer`], [`context`],
//!   [`title_slot`], [`time`].
//! - The server of sessions: [`config`], [`mapping`], [`mcp`], [`server`].
//! - The terminal and the search tools: [`keys`], [`terminal`], [`ast`].
//! - Shared ground: [`json`], [`json_repair`], [`number`], [`pattern`], [`text`].
pub mod agent_event;
pub mod agent_loop;
pub mod ast;
pub mod auth;
pub mod builder;
pub mod client;
pub mod config;
pub mod context;
pub mod convert;
pub mod entries;
pub mod error;
pub mod event;
pub mod execute;
pub mod json;
pub mod json_repair;
pub mod keys;
pub mod loader;
pub mod mapping;
pub mod mcp;
pub mod message;
pub mod number;
pub mod pattern;
pub mod provider;
pub mod schema;
pub mod server;
pub mod sse;
pub mod stream;
pub mod stream_runner;
pub mod terminal;
pub mod text;
pub mod time;
pub mod title_slot;
pub mod wire;
pub mod writer;
