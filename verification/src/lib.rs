use vstd::prelude::*;

pub mod budget;
pub mod bytes;
pub mod tab;
pub mod command;
pub mod wire;
pub mod wire_law;
pub mod cli;
pub mod text;
pub mod composer;
pub mod session_store;
pub mod clock;
pub mod control_pending;
pub mod control_queue;
pub mod mux;
pub mod mux_plan;
pub mod harness;
pub mod harness_wire;
pub mod palette;
pub mod host_rules;
pub mod a11y;
pub mod ime_mode;
pub mod status_bar;
pub mod features;
pub mod frame;
pub mod json;
pub mod perf;
pub mod snapshot;
pub mod startup;
pub mod control_keys;
pub mod offline;
pub mod terminal_replies;
pub mod search;
pub mod reply_slot;
pub mod outcomes;
