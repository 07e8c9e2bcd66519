//! The per-guild data model: rooms, lawsuits, confinement entries, and the
//! well-formedness invariant that every manager operation preserves.

use vstd::prelude::*;

verus! {

/// The outcome taxonomy shared by every manager operation.
#[derive(Clone, Copy, PartialEq, Eq, Debug)]
pub enum OpError {
    /// A prerequisite setting (court category or confinement role) is missing.
    Unconfigured,
    /// A supplied reference is of the wrong kind (e.g. not a category).
    InvalidTarget,
    /// No lawsuit with an unset verdict exists in the addressed room.
    NoActiveLawsuit,
    /// The actor lacks the authority the operation demands.
    Forbidden,
    /// A platform call failed or timed out after the facts were persisted.
    PlatformUnavailable,
    /// The persistence store is unreachable.
    PersistenceUnavailable,
}

/// A provisioned discussion room; its identity persists after the lawsuit
/// hosted in it is closed.
pub struct CourtRoom {
    pub channel_id: u64,
}

/// A dispute record. A lawsuit is *active* while `verdict` is `None`; setting
/// a verdict closes it. `court_room` is the id of the room provisioned for it.
pub struct Lawsuit {
    pub id: u128,
    pub plaintiff: u64,
    pub accused: u64,
    pub judge: u64,
    pub plaintiff_lawyer: Option<u64>,
    pub accused_lawyer: Option<u64>,
    pub reason: String,
    pub verdict: Option<String>,
    pub court_room: u64,
}

/// The mathematical image of a [`Lawsuit`].
pub struct LawsuitModel {
    pub id: u128,
    pub plaintiff: u64,
    pub accused: u64,
    pub judge: u64,
    pub plaintiff_lawyer: Option<u64>,
    pub accused_lawyer: Option<u64>,
    pub reason: Seq<char>,
    pub verdict: Option<Seq<char>>,
    pub court_room: u64,
}

impl View for Lawsuit {
    type V = LawsuitModel;

    open spec fn view(&self) -> LawsuitModel {
        LawsuitModel {
            id: self.id,
            plaintiff: self.plaintiff,
            accused: self.accused,
            judge: self.judge,
            plaintiff_lawyer: self.plaintiff_lawyer,
            accused_lawyer: self.accused_lawyer,
            reason: self.reason@,
            verdict: match self.verdict {
                Some(v) => Some(v@),
                None => None,
            },
            court_room: self.court_room,
        }
    }
}

/// The per-guild aggregate: configuration, rooms, lawsuits, and the set of
/// confined members. One record exists per guild, created lazily.
pub struct GuildState {
    pub court_category: Option<u64>,
    pub prison_role: Option<u64>,
    pub court_rooms: Vec<CourtRoom>,
    pub lawsuits: Vec<Lawsuit>,
    pub prisoners: Vec<u64>,
}

/// The mathematical image of a [`GuildState`]: rooms as the sequence of their
/// channel ids, confinement entries as the set of confined user ids.
#[verifier::ext_equal]
pub struct StateModel {
    pub court_category: Option<u64>,
    pub prison_role: Option<u64>,
    pub rooms: Seq<u64>,
    pub lawsuits: Seq<LawsuitModel>,
    pub prisoners: Set<u64>,
}

impl View for GuildState {
    type V = StateModel;

    open spec fn view(&self) -> StateModel {
        StateModel {
            court_category: self.court_category,
            prison_role: self.prison_role,
            rooms: self.court_rooms@.map_values(|r: CourtRoom| r.channel_id),
            lawsuits: self.lawsuits@.map_values(|l: Lawsuit| l@),
            prisoners: self.prisoners@.to_set(),
        }
    }
}

/// The fresh record a guild starts from: nothing configured, no rooms, no
/// lawsuits, no confinement entries.
pub open spec fn empty_state() -> StateModel {
    StateModel {
        court_category: None,
        prison_role: None,
        rooms: Seq::empty(),
        lawsuits: Seq::empty(),
        prisoners: Set::empty(),
    }
}

/// A lawsuit is active in `room` when it is hosted there and has no verdict.
pub open spec fn is_active_in(l: LawsuitModel, room: u64) -> bool {
    l.court_room == room && l.verdict is None
}

/// Some lawsuit of `m` is active in `room`.
pub open spec fn has_active_lawsuit(m: StateModel, room: u64) -> bool {
    exists|i: int| 0 <= i < m.lawsuits.len() && is_active_in(#[trigger] m.lawsuits[i], room)
}

/// The position of the active lawsuit in `room`; under [`state_wf`] it is
/// unique (see [`lemma_at_most_one_active`]).
pub open spec fn active_index(m: StateModel, room: u64) -> int {
    choose|i: int| 0 <= i < m.lawsuits.len() && is_active_in(#[trigger] m.lawsuits[i], room)
}

/// Well-formedness of a guild record:
/// every room hosts at most one active lawsuit, room ids are distinct, and
/// every lawsuit's room is one of the guild's rooms.
pub open spec fn state_wf(m: StateModel) -> bool {
    &&& forall|i: int, j: int|
        #![trigger m.lawsuits[i], m.lawsuits[j]]
        0 <= i < j < m.lawsuits.len() && m.lawsuits[i].verdict is None
            && m.lawsuits[j].verdict is None ==> m.lawsuits[i].court_room
            != m.lawsuits[j].court_room
    &&& forall|i: int, j: int|
        #![trigger m.rooms[i], m.rooms[j]]
        0 <= i < j < m.rooms.len() ==> m.rooms[i] != m.rooms[j]
    &&& forall|i: int| 0 <= i < m.lawsuits.len() ==> m.rooms.contains(
        (#[trigger] m.lawsuits[i]).court_room,
    )
}

/// No value occurs twice in `s`.
pub open spec fn no_dups(s: Seq<u64>) -> bool {
    forall|i: int, j: int| #![trigger s[i], s[j]] 0 <= i < j < s.len() ==> s[i] != s[j]
}

impl GuildState {
    /// The representation invariant: the model is well-formed and the
    /// confinement list holds each member at most once.
    pub open spec fn inv(self) -> bool {
        &&& state_wf(self@)
        &&& no_dups(self.prisoners@)
    }

    /// A fresh, empty guild record.
    pub fn new() -> (s: GuildState)
        ensures
            s@ == empty_state(),
            s.inv(),
    {
        let s = GuildState {
            court_category: None,
            prison_role: None,
            court_rooms: Vec::new(),
            lawsuits: Vec::new(),
            prisoners: Vec::new(),
        };
        proof {
            assert(s@.rooms =~= empty_state().rooms);
            assert(s@.lawsuits =~= empty_state().lawsuits);
            assert(s@.prisoners =~= empty_state().prisoners);
        }
        s
    }

    /// Whether a confinement entry exists for `user`.
    pub fn is_confined(&self, user: u64) -> (b: bool)
        ensures
            b == self@.prisoners.contains(user),
    {
        let mut k: usize = 0;
        while k < self.prisoners.len()
            invariant
                k <= self.prisoners.len(),
                forall|j: int| 0 <= j < k ==> self.prisoners@[j] != user,
            decreases self.prisoners.len() - k,
        {
            if self.prisoners[k] == user {
                proof {
                    assert(self.prisoners@.contains(user)) by {
                        assert(self.prisoners@[k as int] == user);
                    }
                }
                return true;
            }
            k += 1;
        }
        proof {
            assert(!self.prisoners@.contains(user));
        }
        false
    }

    /// Whether a room with channel id `channel` has been provisioned.
    pub fn has_room(&self, channel: u64) -> (b: bool)
        ensures
            b == self@.rooms.contains(channel),
    {
        let mut k: usize = 0;
        while k < self.court_rooms.len()
            invariant
                k <= self.court_rooms.len(),
                forall|j: int| 0 <= j < k ==> self@.rooms[j] != channel,
            decreases self.court_rooms.len() - k,
        {
            if self.court_rooms[k].channel_id == channel {
                proof {
                    assert(self@.rooms.contains(channel)) by {
                        assert(self@.rooms[k as int] == channel);
                    }
                }
                return true;
            }
            k += 1;
        }
        proof {
            assert(!self@.rooms.contains(channel));
        }
        false
    }

    /// The position of the lawsuit that is active in `room`, if any.
    pub fn find_active_index(&self, room: u64) -> (r: Option<usize>)
        ensures
            r matches Some(i) ==> i < self.lawsuits.len() && is_active_in(
                self@.lawsuits[i as int],
                room,
            ),
            r is None ==> !has_active_lawsuit(self@, room),
    {
        let mut k: usize = 0;
        while k < self.lawsuits.len()
            invariant
                k <= self.lawsuits.len(),
                forall|j: int| 0 <= j < k ==> !is_active_in(self@.lawsuits[j], room),
            decreases self.lawsuits.len() - k,
        {
            if self.lawsuits[k].court_room == room && self.lawsuits[k].verdict.is_none() {
                return Some(k);
            }
            k += 1;
        }
        None
    }
}

/// Two lawsuits active in the same room are the same lawsuit: a room hosts at
/// most one active lawsuit in any well-formed record.
pub proof fn lemma_at_most_one_active(m: StateModel, room: u64, i: int, j: int)
    requires
        state_wf(m),
        0 <= i < m.lawsuits.len(),
        0 <= j < m.lawsuits.len(),
        is_active_in(m.lawsuits[i], room),
        is_active_in(m.lawsuits[j], room),
    ensures
        i == j,
{
}

/// The empty record is well-formed.
pub proof fn lemma_empty_state_wf()
    ensures
        state_wf(empty_state()),
{
}

} // verus!

