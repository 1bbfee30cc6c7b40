//! The per-connection server session: the state machine a connection
//! walks through, the initial push a newly registered connection gets,
//! and the application of inbound client updates to the shared store.
//!
//! The caller owns the transport: it hands inbound payload text in and
//! carries the returned effects out (the external config patch and the
//! broadcast to all registered connections).

use vstd::prelude::*;
use crate::codec::decode_spec;
use crate::codec::decode_message;
use crate::types::{
    apply_selection, clone_levels, clone_selection, ActionModel, AppState, SocketAction,
    SocketMessage,
};

verus! {

/// One connection's lifecycle on the server.
#[derive(Clone, Copy, Debug, PartialEq, Eq, Structural)]
pub enum SessionState {
    Handshaking,
    Registered,
    Streaming,
    Closed,
}

/// What can happen to a session.
#[derive(Clone, Copy, Debug, PartialEq, Eq, Structural)]
pub enum SessionEvent {
    HandshakeComplete,
    InitialStatePushed,
    TransportClosed,
}

/// The session state machine: handshake completion registers the
/// connection, pushing the initial state starts streaming, and transport
/// loss closes the session from any state. Any other pairing changes
/// nothing.
pub open spec fn session_step(s: SessionState, ev: SessionEvent) -> SessionState {
    match (s, ev) {
        (_, SessionEvent::TransportClosed) => SessionState::Closed,
        (SessionState::Handshaking, SessionEvent::HandshakeComplete) => SessionState::Registered,
        (SessionState::Registered, SessionEvent::InitialStatePushed) => SessionState::Streaming,
        _ => s,
    }
}

impl SessionState {
    /// Advances the session by one event.
    pub fn step(self, ev: SessionEvent) -> (r: SessionState)
        ensures
            r == session_step(self, ev),
    {
        match (self, ev) {
            (_, SessionEvent::TransportClosed) => SessionState::Closed,
            (SessionState::Handshaking, SessionEvent::HandshakeComplete) => {
                SessionState::Registered
            },
            (SessionState::Registered, SessionEvent::InitialStatePushed) => {
                SessionState::Streaming
            },
            (s, _) => s,
        }
    }
}

/// The two messages pushed to a connection that has just registered: the
/// full level list strictly first, then the current selection — so a new
/// client always holds the list before any selection that references it.
pub fn initial_messages(state: &AppState) -> (r: Vec<SocketMessage>)
    ensures
        r@.len() == 2,
        r@[0]@.action == ActionModel::LevelListInit(state@.levels),
        r@[1]@.action == ActionModel::SetSelectedLevel(state@.selected_level),
{
    let mut out: Vec<SocketMessage> = Vec::new();
    out.push(SocketMessage { action: SocketAction::LevelListInit(clone_levels(&state.levels)) });
    out.push(
        SocketMessage {
            action: SocketAction::SetSelectedLevel(clone_selection(&state.selected_level)),
        },
    );
    out
}

/// The selection carried by an inbound payload, when the payload decodes
/// to the write/sync action; everything else — a malformed payload or the
/// ignored snapshot tag — carries none.
pub open spec fn accepted_selection(s: Seq<char>) -> Option<Option<Seq<char>>> {
    match decode_spec(s) {
        Some(m) => match m.action {
            ActionModel::SetSelectedLevel(level) => Some(level),
            ActionModel::LevelListInit(_) => None,
        },
        None => None,
    }
}

/// What one inbound payload demands of the caller.
pub enum InboundEffect {
    /// Nothing: the payload was malformed or carried an ignored tag. The
    /// store is untouched, nothing is broadcast, the connection stays
    /// open.
    NoOp,
    /// An accepted selection update: the caller patches the external
    /// configuration for `patch_level` (if a level is named; a patch
    /// failure is logged and non-fatal) and broadcasts `broadcast` to
    /// every registered connection, the sender included.
    Accepted { patch_level: Option<String>, broadcast: SocketMessage },
}

/// Applies one inbound payload to the store. An accepted
/// `SetSelectedLevel` replaces the selection (last write wins) and is
/// echoed back for broadcast; any other payload — unknown tag, malformed
/// text, or the server-only snapshot tag — changes nothing and is not an
/// error.
pub fn handle_inbound(store: &mut AppState, text: &str) -> (r: InboundEffect)
    ensures
        match accepted_selection(text@) {
            Some(level) => {
                &&& final(store)@ == apply_selection(old(store)@, level)
                &&& (r matches InboundEffect::Accepted { patch_level, broadcast }
                    && patch_level.deep_view() == level && broadcast@.action
                    == ActionModel::SetSelectedLevel(level))
            },
            None => final(store)@ == old(store)@ && (r is NoOp),
        },
{
    match decode_message(text) {
        Some(msg) => match msg.action {
            SocketAction::SetSelectedLevel(level) => {
                let patch_level = clone_selection(&level);
                let echo = clone_selection(&level);
                store.set_selected_level(level);
                InboundEffect::Accepted {
                    patch_level,
                    broadcast: SocketMessage { action: SocketAction::SetSelectedLevel(echo) },
                }
            },
            SocketAction::LevelListInit(_) => InboundEffect::NoOp,
        },
        None => InboundEffect::NoOp,
    }
}

} // verus!
