//! The chat panel's state machine, its two transports, and what they carry.
//!
//! [`panel`] and [`actions`] are the panel itself: what an event or a user
//! action does to it, folded into one state. [`protocol`] is the vocabulary
//! the two transports share; [`wire`] and [`json`] read it off the wire, and
//! [`bodies`] write it back. [`web`] drives a local HTTP API, [`rpc`] a local
//! child process, each as decisions from plain events to plain actions so that
//! neither does I/O itself. [`files`], [`sessions`], [`locate`] and
//! [`attach`] compute what a directory, a session list or a pasted image
//! becomes, given what was read from them; [`walk`] states what a whole walk of
//! a directory tree finds. [`lang`] and [`popup`] are the
//! panel's languages and its completion popup. [`view`] turns the state into
//! what is shown. [`text`], [`paths`] and [`order`] are plain string, path and
//! ordering operations the rest is built from; [`tables`] finds pipe tables in
//! a message. [`http`] frames one blocking request or response. [`laws`]
//! states what holds of the panel across several events.

pub mod actions;
pub mod attach;
pub mod bodies;
pub mod files;
pub mod http;
pub mod ids;
pub mod json;
pub mod lang;
pub mod laws;
pub mod locate;
pub mod model;
pub mod order;
pub mod panel;
pub mod paths;
pub mod popup;
pub mod protocol;
pub mod rpc;
pub mod sessions;
pub mod tables;
pub mod text;
pub mod view;
pub mod walk;
pub mod web;
pub mod wire;
