//! A virtual-tree reconciliation engine.
//!
//! Application code describes a user interface as a tree of tags, texts and
//! components ([`node`], [`attr`], [`comp`]). The engine mounts such a tree
//! through a driver ([`mount`], [`driver`]) and later reconciles a newer tree
//! against the mounted one ([`diff`]), or brings the mounted tree up to date
//! after components have updated themselves ([`locate`], [`refresh`]). The
//! driver is asked only for what has to change, and every request names the
//! path of the node that it is about ([`path`], [`frame`], [`key`]).
//!
//! What the engine asks of the driver is written down as functions from
//! trees to sequences of requests ([`calls`], [`diff`]); the contracts of the
//! traversals state that the driver is asked exactly these requests, and
//! [`laws`] proves what follows for every tree. [`recorder`] is a driver that
//! shows nothing and keeps what it is asked; [`event`] names the events that
//! a driver may route to the listeners of a node.

pub mod attr;
pub mod calls;
pub mod comp;
pub mod convert;
pub mod diff;
pub mod driver;
pub mod event;
pub mod frame;
pub mod key;
pub mod laws;
pub mod locate;
pub mod mount;
pub mod node;
pub mod path;
pub mod recorder;
pub mod refresh;
pub mod text;
