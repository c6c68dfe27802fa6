//! Script states, ordered by precedence, and the status a script reports.

use vstd::prelude::*;

verus! {

/// The condition a script reports, from least to most severe.
#[derive(Clone, Copy, Debug, PartialEq, Eq, Structural, PartialOrd, Ord, Hash)]
pub enum ScriptState {
    Active,
    Maintenance,
    Waiting,
    Blocked,
    Error,
}

impl ScriptState {
    /// Position of the state in the precedence order; a higher rank wins.
    pub open spec fn rank(self) -> nat {
        match self {
            ScriptState::Active => 0,
            ScriptState::Maintenance => 1,
            ScriptState::Waiting => 2,
            ScriptState::Blocked => 3,
            ScriptState::Error => 4,
        }
    }

    /// The least severe state, which an empty set of reports consolidates to.
    pub open spec fn lowest() -> ScriptState {
        ScriptState::Active
    }

    /// The rank as a machine integer.
    pub fn severity(self) -> (r: u8)
        ensures
            r == self.rank(),
    {
        match self {
            ScriptState::Active => 0,
            ScriptState::Maintenance => 1,
            ScriptState::Waiting => 2,
            ScriptState::Blocked => 3,
            ScriptState::Error => 4,
        }
    }

    /// Whether `self` takes precedence over `other`.
    pub fn outranks(self, other: ScriptState) -> (r: bool)
        ensures
            r == (self.rank() > other.rank()),
    {
        self.severity() > other.severity()
    }
}

impl Default for ScriptState {
    fn default() -> (r: Self)
        ensures
            r == ScriptState::lowest(),
    {
        ScriptState::Active
    }
}

/// The precedence order is total: distinct states have distinct ranks, so
/// any two states are equal or one outranks the other.
pub proof fn lemma_rank_total(a: ScriptState, b: ScriptState)
    ensures
        a.rank() == b.rank() <==> a == b,
        a.rank() < b.rank() || a == b || b.rank() < a.rank(),
        ScriptState::lowest().rank() <= a.rank(),
{
}

/// What a status says, with its message as a sequence of characters.
pub struct StatusView {
    pub state: ScriptState,
    pub message: Option<Seq<char>>,
}

/// The condition of one script at one point in time, as the script itself
/// reported it; also the shape of the consolidated status.
#[derive(Debug)]
pub struct ScriptStatus {
    pub state: ScriptState,
    pub message: Option<String>,
}

impl View for ScriptStatus {
    type V = StatusView;

    open spec fn view(&self) -> StatusView {
        StatusView {
            state: self.state,
            message: match self.message {
                Some(m) => Some(m@),
                None => None,
            },
        }
    }
}

impl DeepView for ScriptStatus {
    type V = StatusView;

    open spec fn deep_view(&self) -> StatusView {
        self@
    }
}

impl ScriptStatus {
    /// A status with the given state and message.
    pub fn new(state: ScriptState, message: Option<String>) -> (r: Self)
        ensures
            r.state == state,
            r.message == message,
    {
        ScriptStatus { state, message }
    }
}

impl Clone for ScriptStatus {
    fn clone(&self) -> (r: Self)
        ensures
            r@ == self@,
    {
        let message = match &self.message {
            Some(m) => Some(m.clone()),
            None => None,
        };
        ScriptStatus { state: self.state, message }
    }
}

impl PartialEq for ScriptStatus {
    fn eq(&self, other: &Self) -> (r: bool) {
        let same_message = match &self.message {
            Some(a) => match &other.message {
                Some(b) => *a == *b,
                None => false,
            },
            None => other.message.is_none(),
        };
        self.state == other.state && same_message
    }
}

impl vstd::std_specs::cmp::PartialEqSpecImpl for ScriptStatus {
    open spec fn obeys_eq_spec() -> bool {
        true
    }

    open spec fn eq_spec(&self, other: &Self) -> bool {
        self@ == other@
    }
}

} // verus!
