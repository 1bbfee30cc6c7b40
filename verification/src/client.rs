//! The client sync agent: the connection-status state machine, the inbox
//! of parsed inbound messages, and the local replica they are applied to.
//!
//! The caller owns the transport and the reconnect timer: it reports
//! connection attempts, hands inbound payload text in, and asks the agent
//! whether a reconnect is due. The replica is updated only from received
//! messages — a locally initiated selection is never applied before the
//! server's echoed broadcast arrives.

use vstd::prelude::*;
use crate::codec::decode_spec;
use crate::codec::decode_message;
use crate::types::{ActionModel, AppState, MessageModel, SocketAction, SocketMessage, SocketStatus, StateModel};

verus! {

/// The messages of an inbox as message models, in arrival order.
pub open spec fn messages_view(v: Seq<SocketMessage>) -> Seq<MessageModel> {
    Seq::new(v.len(), |i: int| v[i]@)
}

/// One received message applied to the replica: a snapshot replaces the
/// level list wholesale, a selection update replaces the selection
/// wholesale (last received wins).
pub open spec fn apply_message_spec(st: StateModel, m: MessageModel) -> StateModel {
    match m.action {
        ActionModel::LevelListInit(levels) => StateModel {
            levels,
            selected_level: st.selected_level,
        },
        ActionModel::SetSelectedLevel(level) => StateModel {
            levels: st.levels,
            selected_level: level,
        },
    }
}

/// A whole inbox applied to the replica, in arrival order.
pub open spec fn apply_messages_spec(st: StateModel, msgs: Seq<MessageModel>) -> StateModel
    decreases msgs.len(),
{
    if msgs.len() == 0 {
        st
    } else {
        apply_messages_spec(apply_message_spec(st, msgs[0]), msgs.skip(1))
    }
}

/// Last received wins on the replica too: after any batch of received
/// messages whose last one is a selection update, the replica's selection
/// is that update's value.
pub proof fn lemma_last_received_wins(
    st: StateModel,
    msgs: Seq<MessageModel>,
    level: Option<Seq<char>>,
)
    requires
        msgs.len() > 0,
        msgs.last().action == ActionModel::SetSelectedLevel(level),
    ensures
        apply_messages_spec(st, msgs).selected_level == level,
    decreases msgs.len(),
{
    if msgs.len() == 1 {
        assert(msgs.skip(1).len() == 0);
        assert(apply_messages_spec(apply_message_spec(st, msgs[0]), msgs.skip(1))
            == apply_message_spec(st, msgs[0]));
    } else {
        assert(msgs.skip(1).last() == msgs.last());
        lemma_last_received_wins(apply_message_spec(st, msgs[0]), msgs.skip(1), level);
    }
}

/// A newly joined client converges: applying the initial push — the level
/// list, then the current selection — to any replica yields exactly the
/// server's state.
pub proof fn lemma_greeting_converges(replica: StateModel, st: StateModel)
    ensures
        apply_messages_spec(
            replica,
            seq![
                MessageModel { action: ActionModel::LevelListInit(st.levels) },
                MessageModel { action: ActionModel::SetSelectedLevel(st.selected_level) },
            ],
        ) == st,
{
    let greeting = seq![
        MessageModel { action: ActionModel::LevelListInit(st.levels) },
        MessageModel { action: ActionModel::SetSelectedLevel(st.selected_level) },
    ];
    let mid = apply_message_spec(replica, greeting[0]);
    assert(greeting.skip(1) =~= seq![greeting[1]]);
    assert(greeting.skip(1).skip(1) =~= Seq::<MessageModel>::empty());
    assert(apply_messages_spec(replica, greeting) == apply_messages_spec(mid, greeting.skip(1)));
    assert(greeting.skip(1)[0] == greeting[1]);
    assert(apply_messages_spec(mid, greeting.skip(1)) == apply_messages_spec(
        apply_message_spec(mid, greeting[1]),
        greeting.skip(1).skip(1),
    ));
    assert(apply_messages_spec(apply_message_spec(mid, greeting[1]), Seq::<MessageModel>::empty())
        == apply_message_spec(mid, greeting[1]));
    assert(apply_message_spec(mid, greeting[1]) == st);
}

/// Applies one received message to the replica.
pub fn apply_message(replica: &mut AppState, m: SocketMessage)
    ensures
        final(replica)@ == apply_message_spec(old(replica)@, m@),
{
    match m.action {
        SocketAction::LevelListInit(levels) => {
            replica.levels = levels;
        },
        SocketAction::SetSelectedLevel(level) => {
            replica.selected_level = level;
        },
    }
}

/// The client sync agent: connection status, the inbox of messages
/// received and not yet applied, and the local replica.
pub struct ClientAgent {
    pub status: SocketStatus,
    pub messages: Vec<SocketMessage>,
    pub replica: AppState,
}

impl ClientAgent {
    /// A fresh agent: initial status, empty inbox, empty replica.
    pub fn new() -> (r: ClientAgent)
        ensures
            r.status is Init,
            r.messages@ =~= Seq::<SocketMessage>::empty(),
            r.replica@.levels =~= Seq::<Seq<char>>::empty(),
            r.replica@.selected_level is None,
    {
        ClientAgent {
            status: SocketStatus::Init,
            messages: Vec::new(),
            replica: AppState::default(),
        }
    }

    /// A connection attempt has begun.
    pub fn on_connecting(&mut self)
        ensures
            final(self).status is Connecting,
            final(self).messages == old(self).messages,
            final(self).replica == old(self).replica,
    {
        self.status = SocketStatus::Connecting;
    }

    /// The transport handshake succeeded.
    pub fn on_connected(&mut self)
        ensures
            final(self).status is Connected,
            final(self).messages == old(self).messages,
            final(self).replica == old(self).replica,
    {
        self.status = SocketStatus::Connected;
    }

    /// The handshake failed, the stream ended, or a send failed: the agent
    /// is disconnected, and the caller schedules the fixed reconnect delay.
    pub fn on_failure(&mut self)
        ensures
            final(self).status is Failed,
            final(self).messages == old(self).messages,
            final(self).replica == old(self).replica,
    {
        self.status = SocketStatus::Failed;
    }

    /// Reconnection is due exactly when the agent has failed: reconnecting
    /// is the sole recovery mechanism, with no retry ceiling.
    pub fn should_reconnect(&self) -> (r: bool)
        ensures
            r == (self.status is Failed),
    {
        match self.status {
            SocketStatus::Failed => true,
            _ => false,
        }
    }

    /// One inbound payload: a payload that parses as a message joins the
    /// inbox in arrival order; anything else is dropped silently, and the
    /// connection stays open either way.
    pub fn on_inbound_text(&mut self, text: &str)
        ensures
            match decode_spec(text@) {
                Some(m) => final(self).messages@.len() == old(self).messages@.len() + 1
                    && messages_view(final(self).messages@) =~= messages_view(
                    old(self).messages@,
                ).push(m),
                None => final(self).messages == old(self).messages,
            },
            final(self).status == old(self).status,
            final(self).replica == old(self).replica,
    {
        match decode_message(text) {
            Some(msg) => {
                self.messages.push(msg);
                proof {
                    assert(messages_view(self.messages@) =~= messages_view(
                        old(self).messages@,
                    ).push(msg@));
                }
            },
            None => {},
        }
    }

    /// Empties the inbox without touching the replica.
    pub fn clear(&mut self)
        ensures
            final(self).messages@ =~= Seq::<SocketMessage>::empty(),
            final(self).status == old(self).status,
            final(self).replica == old(self).replica,
    {
        self.messages.clear();
    }

    /// Applies the whole inbox to the replica, in arrival order, and
    /// empties it: the replica converges to the state the received
    /// messages describe, the last received value winning.
    pub fn sync(&mut self)
        ensures
            final(self).replica@ == apply_messages_spec(
                old(self).replica@,
                messages_view(old(self).messages@),
            ),
            final(self).messages@ =~= Seq::<SocketMessage>::empty(),
            final(self).status == old(self).status,
    {
        let n = self.messages.len();
        let ghost msgs = messages_view(self.messages@);
        let mut i: usize = 0;
        proof {
            assert(msgs.skip(0) =~= msgs);
        }
        while i < n
            invariant
                i <= n,
                n == self.messages@.len(),
                self.messages@ == old(self).messages@,
                msgs == messages_view(old(self).messages@),
                self.status == old(self).status,
                apply_messages_spec(old(self).replica@, msgs) == apply_messages_spec(
                    self.replica@,
                    msgs.skip(i as int),
                ),
            decreases n - i,
        {
            let m = clone_message(&self.messages[i]);
            proof {
                assert(msgs.skip(i as int)[0] == m@);
                assert(msgs.skip(i as int).skip(1) =~= msgs.skip(i as int + 1));
            }
            apply_message(&mut self.replica, m);
            i += 1;
        }
        proof {
            assert(msgs.skip(n as int) =~= Seq::<MessageModel>::empty());
        }
        self.messages.clear();
    }
}

/// Clones a message, value for value.
pub fn clone_message(m: &SocketMessage) -> (r: SocketMessage)
    ensures
        r@ == m@,
{
    let action = match &m.action {
        SocketAction::SetSelectedLevel(level) => SocketAction::SetSelectedLevel(
            crate::types::clone_selection(level),
        ),
        SocketAction::LevelListInit(levels) => SocketAction::LevelListInit(
            crate::types::clone_levels(levels),
        ),
    };
    SocketMessage { action }
}

} // verus!
