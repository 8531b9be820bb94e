//! Verified core of a small agent toolkit.
//!
//! The heart of the crate is [`actor_model`]: the decisions of a mailbox-based
//! actor engine with supervised restart and a request/reply gateway, written as
//! plain functions from state and event to next state and action, so that an
//! asynchronous runtime can perform the waiting while every rule is proved here.
//!
//! Around it stand the pieces that agents are built from: [`graph`] lays
//! workers out in layers, [`context`] keeps the window of recent messages,
//! [`agent`] holds the agents themselves and what is done to a transcript,
//! [`tools`] and [`capture`] choose models and read device listings, and
//! [`fsm_dag`] runs a small state machine over a topological order.

pub mod actor_model;
pub mod agent;
pub mod capture;
pub mod context;
pub mod fsm_dag;
pub mod graph;
pub mod text;
pub mod tools;
pub mod whisper;
