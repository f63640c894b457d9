//! Session engine for a line-oriented, multi-server chat client.
//!
//! The crate models the client's session state (servers, channels, chat
//! history, membership), parses inbound protocol lines into structured
//! commands, and turns user input into state changes and outbound lines.
//! Network transport, terminal rendering and input editing live outside
//! this crate; they exchange plain values with it.

use vstd::prelude::*;

pub mod command;
pub mod dispatch;
pub mod escape;
pub mod laws;
pub mod members;
pub mod omap;
pub mod select;
pub mod state;
pub mod text;
pub mod wrap;

pub use command::handle_input;
pub use command::AppEvent;
pub use command::Key;
pub use dispatch::Effect;
pub use dispatch::NetEvent;
pub use escape::decode_escapes;
pub use select::PartOutcome;
pub use state::App;
pub use state::ChannelData;
pub use state::Popup;
pub use state::ServerData;

verus! {

} // verus!
