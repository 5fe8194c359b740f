//! Typed message channels multiplexed over one text connection.
//!
//! Each side of a connection numbers its channels ([`channel_allocator`]),
//! frames every message as `channel:message` ([`wire`]), and hands the
//! messages it receives to the listeners attached to their channels
//! ([`receiver`], [`channel_listener`]). Values refer to further channels
//! through the shapes of [`base`], [`protocol_types`] and [`common`].
pub mod base;
pub mod callback;
pub mod channel_allocator;
pub mod channel_listener;
pub mod common;
pub mod echo;
pub mod function_listener;
pub mod generic;
pub mod macro_input;
pub mod macro_output;
pub mod mock;
pub mod protocol_types;
pub mod receiver;
pub mod sendable;
pub mod types;
pub mod unbounded_mpsc;
pub mod wire;
