//! Scheduling core of a GPU job daemon for one multi-GPU host: the in-memory
//! state store, the resource-fit predicate, task placement, the command
//! handlers and the wire framing, each with a machine-checked contract.
//!
//! The store ([`state`]) realises a mathematical model ([`store`]); what one
//! scheduling round decides is a function of that model ([`placement`]) and
//! is carried out by [`scheduler`]; requests are answered by the handlers
//! and routed by [`daemon`]. What holds between any two operations is
//! stated in [`invariants`] and [`gpu_order`], proved of every operation in
//! [`laws`] and [`round`], and of every sequence of events in [`history`].

pub mod client;
pub mod daemon;
pub mod ended;
pub mod frame;
pub mod gpu_handler;
pub mod gpu_order;
pub mod history;
pub mod housing;
pub mod idlist;
pub mod invariants;
pub mod laws;
pub mod message;
pub mod models;
pub mod monitor;
pub mod placement;
pub mod queue_handler;
pub mod replies;
pub mod round;
pub mod scheduler;
pub mod serving;
pub mod state;
pub mod store;
pub mod submit_handler;
pub mod supervise;
pub mod table;
pub mod task_handler;
pub mod text;
