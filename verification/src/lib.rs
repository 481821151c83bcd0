//! Identity projection for sandboxed applications: the signals a machine
//! exposes, the rules that judge whether they hang together, and the
//! launch plan that gives a sandbox a consistent alternative identity.
use vstd::prelude::*;

pub mod text;
pub mod protocol;
pub mod consistency;
pub mod rng;
pub mod sandbox;
pub mod runner;
pub mod session;
pub mod netns;
pub mod providers;
pub mod network;
pub mod account;
pub mod diversity;
pub mod launch;
pub mod dbus;
pub mod plugin;
pub mod tui;
pub mod audit;

verus! {
} // verus!
