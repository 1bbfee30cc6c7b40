//! The shared data model: the message protocol's value types, the
//! authoritative server state, and the client connection status.

use vstd::prelude::*;

verus! {

/// One protocol action: either the write/sync action carrying an optional
/// level selection, or the full level-list snapshot a newly joined client
/// receives.
#[derive(Clone, Debug, PartialEq, Eq)]
pub enum SocketAction {
    SetSelectedLevel(Option<String>),
    LevelListInit(Vec<String>),
}

/// The tagged message envelope used on the wire.
#[derive(Clone, Debug, PartialEq, Eq)]
pub struct SocketMessage {
    pub action: SocketAction,
}

/// The authoritative `{levels, selected_level}` pair. The server owns one
/// instance; each client holds a replica of the same shape.
#[derive(Debug, PartialEq, Eq)]
pub struct AppState {
    pub levels: Vec<String>,
    pub selected_level: Option<String>,
}

/// The client sync agent's connection status.
#[derive(Clone, Copy, Debug, PartialEq, Eq, Structural)]
pub enum SocketStatus {
    Init,
    Connecting,
    Connected,
    Failed,
}

/// Mathematical model of a [`SocketAction`]: level names as character
/// sequences.
pub enum ActionModel {
    SetSelectedLevel(Option<Seq<char>>),
    LevelListInit(Seq<Seq<char>>),
}

/// Mathematical model of a [`SocketMessage`].
pub struct MessageModel {
    pub action: ActionModel,
}

/// Mathematical model of an [`AppState`].
pub struct StateModel {
    pub levels: Seq<Seq<char>>,
    pub selected_level: Option<Seq<char>>,
}

impl View for SocketAction {
    type V = ActionModel;

    open spec fn view(&self) -> ActionModel {
        match self {
            SocketAction::SetSelectedLevel(level) => ActionModel::SetSelectedLevel(
                level.deep_view(),
            ),
            SocketAction::LevelListInit(levels) => ActionModel::LevelListInit(levels.deep_view()),
        }
    }
}

impl View for SocketMessage {
    type V = MessageModel;

    open spec fn view(&self) -> MessageModel {
        MessageModel { action: self.action@ }
    }
}

impl View for AppState {
    type V = StateModel;

    open spec fn view(&self) -> StateModel {
        StateModel {
            levels: self.levels.deep_view(),
            selected_level: self.selected_level.deep_view(),
        }
    }
}

impl Default for AppState {
    /// The empty state: no known levels, nothing selected.
    fn default() -> (r: AppState)
        ensures
            r@.levels =~= Seq::<Seq<char>>::empty(),
            r@.selected_level is None,
    {
        AppState { levels: Vec::new(), selected_level: None }
    }
}

impl Default for SocketStatus {
    /// A sync agent starts in `Init`.
    fn default() -> (r: SocketStatus)
        ensures
            r is Init,
    {
        SocketStatus::Init
    }
}

/// Clones a list of level names, name for name.
pub fn clone_levels(levels: &Vec<String>) -> (r: Vec<String>)
    ensures
        r@ == levels@,
{
    let r = levels.clone();
    proof {
        assert forall|k: int| 0 <= k < r@.len() implies r@[k] == levels@[k] by {
            assert(cloned::<String>(levels@[k], r@[k]));
        }
        assert(r@ =~= levels@);
    }
    r
}

/// Clones an optional level name.
pub fn clone_selection(selection: &Option<String>) -> (r: Option<String>)
    ensures
        r.deep_view() == selection.deep_view(),
{
    match selection {
        Some(level) => Some(level.clone()),
        None => None,
    }
}

impl AppState {
    /// The state at server startup: the discovered level list, nothing
    /// selected yet.
    pub fn new(levels: Vec<String>) -> (r: AppState)
        ensures
            r@.levels == levels.deep_view(),
            r@.selected_level is None,
    {
        AppState { levels, selected_level: None }
    }

    /// A copy of the state, safe to read without holding any lock.
    pub fn get_snapshot(&self) -> (r: AppState)
        ensures
            r@ == self@,
    {
        let r = AppState {
            levels: clone_levels(&self.levels),
            selected_level: clone_selection(&self.selected_level),
        };
        assert(r@.levels =~= self@.levels);
        r
    }

    /// Applies one accepted `SetSelectedLevel` update: the selection is
    /// replaced wholesale (last write wins), the level list is untouched.
    pub fn set_selected_level(&mut self, level: Option<String>)
        ensures
            final(self)@ == apply_selection(old(self)@, level.deep_view()),
    {
        self.selected_level = level;
    }
}

/// One `SetSelectedLevel` update applied to the state model.
pub open spec fn apply_selection(st: StateModel, level: Option<Seq<char>>) -> StateModel {
    StateModel { levels: st.levels, selected_level: level }
}

/// A whole sequence of accepted `SetSelectedLevel` updates applied in
/// order.
pub open spec fn apply_selections(st: StateModel, updates: Seq<Option<Seq<char>>>) -> StateModel
    decreases updates.len(),
{
    if updates.len() == 0 {
        st
    } else {
        apply_selections(apply_selection(st, updates[0]), updates.skip(1))
    }
}

/// Last write wins: after any sequence of accepted `SetSelectedLevel`
/// updates, the selection equals the last update's value, and the level
/// list is never changed by updates.
pub proof fn lemma_last_write_wins(st: StateModel, updates: Seq<Option<Seq<char>>>)
    requires
        updates.len() > 0,
    ensures
        apply_selections(st, updates).selected_level == updates.last(),
        apply_selections(st, updates).levels == st.levels,
    decreases updates.len(),
{
    if updates.len() == 1 {
        assert(updates.skip(1).len() == 0);
        assert(apply_selections(apply_selection(st, updates[0]), updates.skip(1))
            == apply_selection(st, updates[0]));
    } else {
        lemma_last_write_wins(apply_selection(st, updates[0]), updates.skip(1));
        assert(updates.skip(1).last() == updates.last());
    }
}

} // verus!

