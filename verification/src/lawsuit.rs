//! The lawsuit lifecycle manager: opening a dispute (with its provisioned
//! room), configuring the court category, and closing a dispute by recording
//! a verdict.

use vstd::prelude::*;

use crate::model::{
    active_index, has_active_lawsuit, is_active_in, lemma_at_most_one_active, state_wf, CourtRoom,
    GuildState, Lawsuit, LawsuitModel, OpError, StateModel,
};

verus! {

/// What an operator supplies to open a lawsuit.
pub struct CreateRequest {
    pub plaintiff: u64,
    pub accused: u64,
    pub judge: u64,
    pub plaintiff_lawyer: Option<u64>,
    pub accused_lawyer: Option<u64>,
    pub reason: String,
}

/// The provisioning order a successful [`GuildState::create_begin`] hands
/// back: the caller asks the platform for a room under `category` restricted
/// to exactly `members`, then records the outcome with
/// [`GuildState::create_finish`].
pub struct RoomPlan {
    pub lawsuit_id: u128,
    pub category: u64,
    pub members: Vec<u64>,
}

/// The members allowed into the lawsuit's room: plaintiff, accused, judge,
/// and whichever lawyers were named.
pub open spec fn participant_seq(req: CreateRequest) -> Seq<u64> {
    let base = Seq::empty().push(req.plaintiff).push(req.accused).push(req.judge);
    let with_plaintiff_lawyer = if req.plaintiff_lawyer is Some {
        base.push(req.plaintiff_lawyer->0)
    } else {
        base
    };
    if req.accused_lawyer is Some {
        with_plaintiff_lawyer.push(req.accused_lawyer->0)
    } else {
        with_plaintiff_lawyer
    }
}

/// The lawsuit record a successful creation appends: freshly identified,
/// hosted in `room`, with no verdict yet.
pub open spec fn new_lawsuit_model(req: CreateRequest, id: u128, room: u64) -> LawsuitModel {
    LawsuitModel {
        id: id,
        plaintiff: req.plaintiff,
        accused: req.accused,
        judge: req.judge,
        plaintiff_lawyer: req.plaintiff_lawyer,
        accused_lawyer: req.accused_lawyer,
        reason: req.reason@,
        verdict: None,
        court_room: room,
    }
}

/// The record after a lawsuit and its room are appended together.
pub open spec fn record_lawsuit(m: StateModel, l: LawsuitModel) -> StateModel {
    StateModel { rooms: m.rooms.push(l.court_room), lawsuits: m.lawsuits.push(l), ..m }
}

/// The lawsuit once `verdict` is recorded, which closes it.
pub open spec fn with_verdict(l: LawsuitModel, verdict: Seq<char>) -> LawsuitModel {
    LawsuitModel { verdict: Some(verdict), ..l }
}

/// The record after the lawsuit at position `k` is closed with `verdict`.
pub open spec fn close_at(m: StateModel, k: int, verdict: Seq<char>) -> StateModel {
    StateModel { lawsuits: m.lawsuits.update(k, with_verdict(m.lawsuits[k], verdict)), ..m }
}

/// Opening a lawsuit in a freshly provisioned room keeps the record
/// well-formed: in particular, no room comes to host two active lawsuits,
/// since the new lawsuit is active only in the new room.
pub proof fn lemma_record_preserves_wf(m: StateModel, l: LawsuitModel)
    requires
        state_wf(m),
        !m.rooms.contains(l.court_room),
    ensures
        state_wf(record_lawsuit(m, l)),
{
    let m1 = record_lawsuit(m, l);
    let channel = l.court_room;
    assert forall|i: int, j: int|
        #![trigger m1.lawsuits[i], m1.lawsuits[j]]
        0 <= i < j < m1.lawsuits.len() && m1.lawsuits[i].verdict is None
            && m1.lawsuits[j].verdict is None implies m1.lawsuits[i].court_room
        != m1.lawsuits[j].court_room by {
        if j < m.lawsuits.len() {
            assert(m1.lawsuits[i] == m.lawsuits[i]);
            assert(m1.lawsuits[j] == m.lawsuits[j]);
        } else {
            assert(m1.lawsuits[j] == l);
            assert(m1.lawsuits[i] == m.lawsuits[i]);
            assert(m.rooms.contains(m.lawsuits[i].court_room));
            if m.lawsuits[i].court_room == channel {
                assert(m.rooms.contains(channel));
                assert(false);
            }
        }
    }
    assert forall|i: int, j: int|
        #![trigger m1.rooms[i], m1.rooms[j]]
        0 <= i < j < m1.rooms.len() implies m1.rooms[i] != m1.rooms[j] by {
        if j < m.rooms.len() {
            assert(m1.rooms[i] == m.rooms[i]);
            assert(m1.rooms[j] == m.rooms[j]);
        } else {
            assert(m1.rooms[j] == channel);
            assert(m1.rooms[i] == m.rooms[i]);
            if m.rooms[i] == channel {
                assert(m.rooms.contains(channel));
                assert(false);
            }
        }
    }
    assert forall|i: int| 0 <= i < m1.lawsuits.len() implies m1.rooms.contains(
        (#[trigger] m1.lawsuits[i]).court_room,
    ) by {
        if i < m.lawsuits.len() {
            assert(m1.lawsuits[i] == m.lawsuits[i]);
            assert(m.rooms.contains(m.lawsuits[i].court_room));
            let w = choose|w: int| 0 <= w < m.rooms.len() && m.rooms[w] == m.lawsuits[i].court_room;
            assert(m1.rooms[w] == m.rooms[w]);
        } else {
            assert(m1.lawsuits[i] == l);
            assert(m1.rooms[m.rooms.len() as int] == channel);
        }
    }
}

/// Recording a verdict keeps the record well-formed: closing a lawsuit only
/// shrinks the set of active lawsuits, so no room comes to host two.
pub proof fn lemma_close_preserves_wf(m: StateModel, k: int, verdict: Seq<char>)
    requires
        state_wf(m),
        0 <= k < m.lawsuits.len(),
    ensures
        state_wf(close_at(m, k, verdict)),
{
    let m1 = close_at(m, k, verdict);
    assert forall|i: int, j: int|
        #![trigger m1.lawsuits[i], m1.lawsuits[j]]
        0 <= i < j < m1.lawsuits.len() && m1.lawsuits[i].verdict is None
            && m1.lawsuits[j].verdict is None implies m1.lawsuits[i].court_room
        != m1.lawsuits[j].court_room by {
        assert(i != k && j != k);
        assert(m1.lawsuits[i] == m.lawsuits[i]);
        assert(m1.lawsuits[j] == m.lawsuits[j]);
    }
    assert forall|i: int| 0 <= i < m1.lawsuits.len() implies m1.rooms.contains(
        (#[trigger] m1.lawsuits[i]).court_room,
    ) by {
        if i == k {
            assert(m1.lawsuits[i].court_room == m.lawsuits[i].court_room);
        } else {
            assert(m1.lawsuits[i] == m.lawsuits[i]);
        }
        assert(m.rooms.contains(m.lawsuits[i].court_room));
    }
}

/// Relies on mongodb::bson::Uuid::new: a freshly generated version-4
/// identifier, drawn from the operating system's random number generator.
/// Nothing is promised of the value.
#[verifier::external_body]
fn fresh_lawsuit_id() -> u128 {
    u128::from_be_bytes(mongodb::bson::Uuid::new().bytes())
}

impl GuildState {
    /// Begin opening a lawsuit: check authority and configuration, draw a
    /// fresh lawsuit id, and hand back the room-provisioning order. Nothing
    /// is recorded until [`GuildState::create_finish`] sees the platform's
    /// answer, so a failed precondition persists nothing.
    pub fn create_begin(&self, actor_can_manage: bool, req: &CreateRequest) -> (r: Result<
        RoomPlan,
        OpError,
    >)
        requires
            req.reason@.len() > 0,
        ensures
            !actor_can_manage ==> r == Err::<RoomPlan, OpError>(OpError::Forbidden),
            actor_can_manage && self.court_category is None ==> r == Err::<RoomPlan, OpError>(
                OpError::Unconfigured,
            ),
            actor_can_manage ==> (self.court_category matches Some(cat) ==> (r matches Ok(plan)
                && plan.category == cat && plan.members@ == participant_seq(*req))),
    {
        if !actor_can_manage {
            return Err(OpError::Forbidden);
        }
        let category = match self.court_category {
            None => {
                return Err(OpError::Unconfigured);
            },
            Some(c) => c,
        };
        let mut members: Vec<u64> = Vec::new();
        members.push(req.plaintiff);
        members.push(req.accused);
        members.push(req.judge);
        if let Some(lawyer) = req.plaintiff_lawyer {
            members.push(lawyer);
        }
        if let Some(lawyer) = req.accused_lawyer {
            members.push(lawyer);
        }
        proof {
            assert(members@ =~= participant_seq(*req));
        }
        Ok(RoomPlan { lawsuit_id: fresh_lawsuit_id(), category, members })
    }

    /// Record the platform's answer to the provisioning order. On success the
    /// new room and the new lawsuit are appended together and the room id is
    /// returned; on failure nothing is recorded and the platform failure is
    /// reported. The platform hands out a channel id it has just created, so
    /// the id is not one of the guild's rooms yet.
    pub fn create_finish(
        &mut self,
        req: CreateRequest,
        lawsuit_id: u128,
        room_result: Option<u64>,
    ) -> (r: Result<u64, OpError>)
        requires
            old(self).inv(),
            room_result matches Some(channel) ==> !old(self)@.rooms.contains(channel),
        ensures
            final (self).inv(),
            room_result is None ==> r == Err::<u64, OpError>(OpError::PlatformUnavailable) && *final
                (self) == *old(self),
            room_result matches Some(channel) ==> r == Ok::<u64, OpError>(channel) && final (self)@
                == record_lawsuit(old(self)@, new_lawsuit_model(req, lawsuit_id, channel)),
    {
        let channel = match room_result {
            None => {
                return Err(OpError::PlatformUnavailable);
            },
            Some(c) => c,
        };
        let ghost m0 = self@;
        self.court_rooms.push(CourtRoom { channel_id: channel });
        let plaintiff = req.plaintiff;
        let accused = req.accused;
        let judge = req.judge;
        let plaintiff_lawyer = req.plaintiff_lawyer;
        let accused_lawyer = req.accused_lawyer;
        self.lawsuits.push(
            Lawsuit {
                id: lawsuit_id,
                plaintiff,
                accused,
                judge,
                plaintiff_lawyer,
                accused_lawyer,
                reason: req.reason,
                verdict: None,
                court_room: channel,
            },
        );
        proof {
            let l = new_lawsuit_model(req, lawsuit_id, channel);
            let m1 = record_lawsuit(m0, l);
            assert(self@.rooms =~= m1.rooms);
            assert(self@.lawsuits =~= m1.lawsuits);
            assert(self@.prisoners =~= m1.prisoners);
            assert(self@ =~= m1);
            lemma_record_preserves_wf(m0, l);
        }
        Ok(channel)
    }

    /// Store the court category once the platform has confirmed that the
    /// supplied reference denotes a category container; `resolved_category`
    /// is the platform's answer (`None`: the reference is not a category).
    pub fn set_court_category(&mut self, actor_can_manage: bool, resolved_category: Option<u64>) -> (r:
        Result<(), OpError>)
        requires
            old(self).inv(),
        ensures
            final (self).inv(),
            !actor_can_manage ==> r == Err::<(), OpError>(OpError::Forbidden) && *final (self)
                == *old(self),
            actor_can_manage && resolved_category is None ==> r == Err::<(), OpError>(
                OpError::InvalidTarget,
            ) && *final (self) == *old(self),
            actor_can_manage ==> (resolved_category matches Some(cat) ==> r == Ok::<(), OpError>(())
                && final (self)@ == (StateModel { court_category: Some(cat), ..old(self)@ })),
    {
        if !actor_can_manage {
            return Err(OpError::Forbidden);
        }
        match resolved_category {
            None => Err(OpError::InvalidTarget),
            Some(cat) => {
                self.court_category = Some(cat);
                Ok(())
            },
        }
    }

    /// Close the active lawsuit hosted in `room_id` by recording `verdict`.
    /// Only the recorded judge may close it, unless `permission_override`
    /// asserts guild-management authority on the actor's behalf. Closing an
    /// already-closed or unknown room reports that no process is active.
    pub fn close(
        &mut self,
        actor: u64,
        room_id: u64,
        verdict: String,
        permission_override: bool,
    ) -> (r: Result<(), OpError>)
        requires
            old(self).inv(),
        ensures
            final (self).inv(),
            !has_active_lawsuit(old(self)@, room_id) ==> r == Err::<(), OpError>(
                OpError::NoActiveLawsuit,
            ) && *final (self) == *old(self),
            has_active_lawsuit(old(self)@, room_id) ==> ({
                let k = active_index(old(self)@, room_id);
                if actor == old(self)@.lawsuits[k].judge || permission_override {
                    r == Ok::<(), OpError>(()) && final (self)@ == close_at(
                        old(self)@,
                        k,
                        verdict@,
                    )
                } else {
                    r == Err::<(), OpError>(OpError::Forbidden) && *final (self) == *old(self)
                }
            }),
    {
        let k = match self.find_active_index(room_id) {
            None => {
                return Err(OpError::NoActiveLawsuit);
            },
            Some(k) => k,
        };
        proof {
            assert(has_active_lawsuit(self@, room_id)) by {
                assert(is_active_in(self@.lawsuits[k as int], room_id));
            }
            assert(is_active_in(self@.lawsuits[active_index(self@, room_id)], room_id));
            lemma_at_most_one_active(self@, room_id, k as int, active_index(self@, room_id));
        }
        let judge = self.lawsuits[k].judge;
        if actor != judge && !permission_override {
            return Err(OpError::Forbidden);
        }
        let ghost m0 = self@;
        let ghost ls0 = self.lawsuits@;
        let suit = self.lawsuits.remove(k);
        let closed = Lawsuit { verdict: Some(verdict), ..suit };
        self.lawsuits.insert(k, closed);
        proof {
            let lm = with_verdict(m0.lawsuits[k as int], closed.verdict->0@);
            let m1 = close_at(m0, k as int, closed.verdict->0@);
            ls0.remove_ensures(k as int);
            ls0.remove(k as int).insert_ensures(k as int, closed);
            assert(self.lawsuits@ =~= ls0.update(k as int, closed));
            assert(closed@ == lm);
            assert(self@.lawsuits =~= m1.lawsuits);
            assert(self@.rooms =~= m1.rooms);
            assert(self@.prisoners =~= m1.prisoners);
            assert(self@ =~= m1);
            lemma_close_preserves_wf(m0, k as int, closed.verdict->0@);
        }
        Ok(())
    }
}

} // verus!
