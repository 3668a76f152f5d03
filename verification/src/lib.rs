//! Verified core of a game-overlay system: a host-side injector that
//! classifies target processes and prepares a handoff configuration, a
//! line-delimited JSON control-channel protocol, and the in-process overlay
//! state and feature-rendering logic driven by that protocol.
pub mod channel;
pub mod codec;
pub mod config;
pub mod hexcolor;
pub mod injector;
pub mod notify;
pub mod render;
pub mod state;
pub mod text;
pub mod util;

use vstd::prelude::*;

verus! {

/// Graphics backend a render hook can attach to.
#[derive(Clone, Copy, Debug, PartialEq, Eq, Structural)]
pub enum Backend {
    Dx11,
    Dx12,
    OpenGl,
}

} // verus!
