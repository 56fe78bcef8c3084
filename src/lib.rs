//! A frame-scoped render graph: passes declare the resources they read and
//! write, the graph orders them, decides clear-versus-load for each write and
//! resolves handles only while a pass runs.
//!
//! - `resource`: the frame's resource table and its handles.
//! - `deps`: what a node reads and writes, with composites folded in.
//! - `graph`: the authoring surface and the freshness flags.
//! - `order` and `schedule`: the precedence between nodes and the execution
//!   order, with the laws it obeys.
//! - `context`: resolution while a node runs, and `execute`.
//! - `passes`: the full-screen and blit passes built on the graph.
//! - `bind_group`, `main_pass`, `atmosphere`: bind groups as composites, the
//!   main opaque pass's commands, and the atmosphere's start-up decision.

pub mod atmosphere;
pub mod bind_group;
pub mod context;
pub mod deps;
pub mod error;
pub mod graph;
pub mod main_pass;
pub mod order;
pub mod passes;
pub mod resource;
pub mod schedule;
