//! The persistence gateway's model: one record per guild, created lazily by
//! find-or-insert, updated by whole-record read-modify-write, and deleted
//! only as a whole by the guild-clear operation.

use vstd::prelude::*;

use crate::confinement::{confine, free_member, reconcile_action};
use crate::lawsuit::{
    close_at, new_lawsuit_model, participant_seq, record_lawsuit, CreateRequest, RoomPlan,
};
use crate::model::{active_index, empty_state, has_active_lawsuit, GuildState, OpError, StateModel};

verus! {

/// The per-guild records, keyed by guild id. Keys are unique and every stored
/// record satisfies its invariant.
pub struct Store {
    pub entries: Vec<(u64, GuildState)>,
}

impl Store {
    /// No two records share a guild id.
    pub open spec fn keys_unique(self) -> bool {
        forall|i: int, j: int|
            #![trigger self.entries@[i], self.entries@[j]]
            0 <= i < j < self.entries@.len() ==> self.entries@[i].0 != self.entries@[j].0
    }

    /// The store invariant: unique keys, and every record well-formed.
    pub open spec fn inv(self) -> bool {
        &&& self.keys_unique()
        &&& forall|i: int|
            0 <= i < self.entries@.len() ==> (#[trigger] self.entries@[i]).1.inv()
    }

    /// A record exists for `guild`.
    pub open spec fn has_guild(self, guild: u64) -> bool {
        exists|i: int|
            0 <= i < self.entries@.len() && (#[trigger] self.entries@[i]).0 == guild
    }

    /// The position of the record for `guild`; unique under [`Store::keys_unique`].
    pub open spec fn guild_index(self, guild: u64) -> int {
        choose|i: int|
            0 <= i < self.entries@.len() && (#[trigger] self.entries@[i]).0 == guild
    }

    /// The stored record for `guild`.
    pub open spec fn guild_state(self, guild: u64) -> StateModel {
        self.entries@[self.guild_index(guild)].1@
    }

    /// The record an operation on `guild` works on: the stored one, or the
    /// fresh empty one that find-or-insert creates.
    pub open spec fn found_or_fresh(self, guild: u64) -> StateModel {
        if self.has_guild(guild) {
            self.guild_state(guild)
        } else {
            empty_state()
        }
    }

    /// An empty store: no guild has a record yet.
    pub fn new() -> (s: Store)
        ensures
            s.inv(),
            s.entries@.len() == 0,
            forall|g: u64| !s.has_guild(g),
    {
        Store { entries: Vec::new() }
    }

    /// The position of the record for `guild`, if one is stored.
    pub fn find_index(&self, guild: u64) -> (r: Option<usize>)
        ensures
            r matches Some(i) ==> i < self.entries@.len() && self.entries@[i as int].0 == guild,
            r is None ==> !self.has_guild(guild),
    {
        let mut k: usize = 0;
        while k < self.entries.len()
            invariant
                k <= self.entries.len(),
                forall|j: int| 0 <= j < k ==> (#[trigger] self.entries@[j]).0 != guild,
            decreases self.entries.len() - k,
        {
            if self.entries[k].0 == guild {
                return Some(k);
            }
            k += 1;
        }
        proof {
            if self.has_guild(guild) {
                let i = choose|i: int|
                    0 <= i < self.entries@.len() && (#[trigger] self.entries@[i]).0 == guild;
                assert(self.entries@[i].0 != guild);
            }
        }
        None
    }

    /// Whether a confinement entry is stored for `user` in `guild`.
    pub fn find_confinement_entry(&self, guild: u64, user: u64) -> (b: bool)
        requires
            self.inv(),
        ensures
            b == self.found_or_fresh(guild).prisoners.contains(user),
    {
        match self.find_index(guild) {
            None => false,
            Some(i) => {
                proof {
                    lemma_guild_index_at(*self, guild, i as int);
                }
                self.entries[i].1.is_confined(user)
            },
        }
    }

    /// Find-or-insert: after the call a record for `guild` exists — the one
    /// already stored, or a fresh empty one appended atomically. Returns its
    /// position. Every other guild's record is untouched.
    pub fn find_or_insert_guild_state(&mut self, guild: u64) -> (i: usize)
        requires
            old(self).inv(),
        ensures
            final (self).inv(),
            i < final (self).entries@.len(),
            final (self).entries@[i as int].0 == guild,
            final (self).has_guild(guild),
            final (self).guild_index(guild) == i as int,
            final (self).entries@[i as int].1@ == old(self).found_or_fresh(guild),
            final (self).guild_state(guild) == old(self).found_or_fresh(guild),
            old(self).has_guild(guild) ==> *final (self) == *old(self),
            !old(self).has_guild(guild) ==> final (self).entries@.len() == old(self).entries@.len()
                + 1 && i == old(self).entries@.len(),
            forall|g2: u64|
                g2 != guild ==> (#[trigger] final (self).has_guild(g2)) == old(self).has_guild(g2),
            forall|g2: u64|
                g2 != guild && old(self).has_guild(g2) ==> (#[trigger] final (self).guild_state(g2))
                    == old(self).guild_state(g2),
    {
        match self.find_index(guild) {
            Some(i) => {
                proof {
                    lemma_guild_index_at(*self, guild, i as int);
                }
                i
            },
            None => {
                let i = self.entries.len();
                self.entries.push((guild, GuildState::new()));
                proof {
                    let pre = *old(self);
                    let post = *self;
                    assert forall|a: int, b: int|
                        #![trigger post.entries@[a], post.entries@[b]]
                        0 <= a < b < post.entries@.len() implies post.entries@[a].0
                        != post.entries@[b].0 by {
                        if b < pre.entries@.len() {
                            assert(post.entries@[a] == pre.entries@[a]);
                            assert(post.entries@[b] == pre.entries@[b]);
                        } else {
                            assert(post.entries@[b].0 == guild);
                            assert(post.entries@[a] == pre.entries@[a]);
                            if pre.entries@[a].0 == guild {
                                assert(pre.has_guild(guild));
                                assert(false);
                            }
                        }
                    }
                    assert forall|a: int|
                        0 <= a < post.entries@.len() implies (#[trigger] post.entries@[a]).1.inv()
                        by {
                        if a < pre.entries@.len() {
                            assert(post.entries@[a] == pre.entries@[a]);
                        }
                    }
                    lemma_guild_index_at(post, guild, i as int);
                    assert forall|g2: u64|
                        g2 != guild implies (#[trigger] post.has_guild(g2)) == pre.has_guild(g2) by {
                        if post.has_guild(g2) {
                            let a = post.guild_index(g2);
                            assert(0 <= a < post.entries@.len() && post.entries@[a].0 == g2);
                            assert(a < pre.entries@.len());
                            assert(pre.entries@[a] == post.entries@[a]);
                            assert(pre.has_guild(g2));
                        }
                        if pre.has_guild(g2) {
                            let a = pre.guild_index(g2);
                            assert(0 <= a < pre.entries@.len() && pre.entries@[a].0 == g2);
                            assert(post.entries@[a] == pre.entries@[a]);
                            assert(post.has_guild(g2));
                        }
                    }
                    assert forall|g2: u64|
                        g2 != guild && pre.has_guild(g2) implies (#[trigger] post.guild_state(g2))
                        == pre.guild_state(g2) by {
                        let a = pre.guild_index(g2);
                        assert(0 <= a < pre.entries@.len() && pre.entries@[a].0 == g2);
                        assert(post.entries@[a] == pre.entries@[a]);
                        lemma_guild_index_at(post, g2, a);
                        lemma_guild_index_at(pre, g2, a);
                    }
                }
                i
            },
        }
    }

    /// Clear: delete the whole record for `guild` — rooms, lawsuits,
    /// confinement entries and configuration — irrecoverably. Demands
    /// guild-management authority. Other guilds' records are untouched.
    pub fn clear(&mut self, guild: u64, actor_can_manage: bool) -> (r: Result<(), OpError>)
        requires
            old(self).inv(),
        ensures
            final (self).inv(),
            !actor_can_manage ==> r == Err::<(), OpError>(OpError::Forbidden) && *final (self)
                == *old(self),
            actor_can_manage ==> r == Ok::<(), OpError>(()) && !final (self).has_guild(guild),
            forall|g2: u64|
                g2 != guild ==> (#[trigger] final (self).has_guild(g2)) == old(self).has_guild(g2),
            forall|g2: u64|
                g2 != guild && old(self).has_guild(g2) ==> (#[trigger] final (self).guild_state(g2))
                    == old(self).guild_state(g2),
    {
        if !actor_can_manage {
            return Err(OpError::Forbidden);
        }
        match self.find_index(guild) {
            None => Ok(()),
            Some(i) => {
                self.entries.remove(i);
                proof {
                    lemma_entry_removed(*old(self), *self, i as int, guild);
                }
                Ok(())
            },
        }
    }

    /// Configure the court category for `guild`;
    /// see [`GuildState::set_court_category`].
    pub fn set_court_category(
        &mut self,
        guild: u64,
        actor_can_manage: bool,
        resolved_category: Option<u64>,
    ) -> (r: Result<(), OpError>)
        requires
            old(self).inv(),
        ensures
            final (self).inv(),
            final (self).has_guild(guild),
            !actor_can_manage ==> r == Err::<(), OpError>(OpError::Forbidden) && final (
            self).guild_state(guild) == old(self).found_or_fresh(guild),
            actor_can_manage && resolved_category is None ==> r == Err::<(), OpError>(
                OpError::InvalidTarget,
            ) && final (self).guild_state(guild) == old(self).found_or_fresh(guild),
            actor_can_manage ==> (resolved_category matches Some(cat) ==> r == Ok::<(), OpError>(())
                && final (self).guild_state(guild) == (StateModel {
                court_category: Some(cat),
                ..old(self).found_or_fresh(guild)
            })),
            forall|g2: u64|
                g2 != guild ==> (#[trigger] final (self).has_guild(g2)) == old(self).has_guild(g2),
            forall|g2: u64|
                g2 != guild && old(self).has_guild(g2) ==> (#[trigger] final (self).guild_state(g2))
                    == old(self).guild_state(g2),
    {
        let i = self.find_or_insert_guild_state(guild);
        let ghost pre = *self;
        let (key, mut st) = self.entries.remove(i);
        let r = st.set_court_category(actor_can_manage, resolved_category);
        self.entries.insert(i, (key, st));
        proof {
            assert(key == guild);
            lemma_entry_update(pre, *self, i as int, guild, st);
            lemma_chain_preserved(*old(self), pre, *self, guild);
        }
        r
    }

    /// Configure the confinement role for `guild`;
    /// see [`GuildState::set_confinement_role`].
    pub fn set_confinement_role(&mut self, guild: u64, actor_can_manage: bool, role: u64) -> (r:
        Result<(), OpError>)
        requires
            old(self).inv(),
        ensures
            final (self).inv(),
            final (self).has_guild(guild),
            !actor_can_manage ==> r == Err::<(), OpError>(OpError::Forbidden) && final (
            self).guild_state(guild) == old(self).found_or_fresh(guild),
            actor_can_manage ==> r == Ok::<(), OpError>(()) && final (self).guild_state(guild) == (
            StateModel { prison_role: Some(role), ..old(self).found_or_fresh(guild) }),
            forall|g2: u64|
                g2 != guild ==> (#[trigger] final (self).has_guild(g2)) == old(self).has_guild(g2),
            forall|g2: u64|
                g2 != guild && old(self).has_guild(g2) ==> (#[trigger] final (self).guild_state(g2))
                    == old(self).guild_state(g2),
    {
        let i = self.find_or_insert_guild_state(guild);
        let ghost pre = *self;
        let (key, mut st) = self.entries.remove(i);
        let r = st.set_confinement_role(actor_can_manage, role);
        self.entries.insert(i, (key, st));
        proof {
            assert(key == guild);
            lemma_entry_update(pre, *self, i as int, guild, st);
            lemma_chain_preserved(*old(self), pre, *self, guild);
        }
        r
    }

    /// Begin opening a lawsuit in `guild`; see [`GuildState::create_begin`].
    /// The record itself is untouched until the finish step.
    pub fn create_lawsuit_begin(&mut self, guild: u64, actor_can_manage: bool, req: &CreateRequest) -> (r:
        Result<RoomPlan, OpError>)
        requires
            old(self).inv(),
            req.reason@.len() > 0,
        ensures
            final (self).inv(),
            final (self).has_guild(guild),
            final (self).guild_state(guild) == old(self).found_or_fresh(guild),
            !actor_can_manage ==> r == Err::<RoomPlan, OpError>(OpError::Forbidden),
            actor_can_manage && old(self).found_or_fresh(guild).court_category is None ==> r
                == Err::<RoomPlan, OpError>(OpError::Unconfigured),
            actor_can_manage ==> (old(self).found_or_fresh(guild).court_category matches Some(cat)
                ==> (r matches Ok(plan) && plan.category == cat && plan.members@ == participant_seq(
                *req,
            ))),
            forall|g2: u64|
                g2 != guild ==> (#[trigger] final (self).has_guild(g2)) == old(self).has_guild(g2),
            forall|g2: u64|
                g2 != guild && old(self).has_guild(g2) ==> (#[trigger] final (self).guild_state(g2))
                    == old(self).guild_state(g2),
    {
        let i = self.find_or_insert_guild_state(guild);
        self.entries[i].1.create_begin(actor_can_manage, req)
    }

    /// Record the platform's answer for a lawsuit opened in `guild`;
    /// see [`GuildState::create_finish`].
    pub fn create_lawsuit_finish(
        &mut self,
        guild: u64,
        req: CreateRequest,
        lawsuit_id: u128,
        room_result: Option<u64>,
    ) -> (r: Result<u64, OpError>)
        requires
            old(self).inv(),
            room_result matches Some(channel) ==> !old(self).found_or_fresh(
                guild,
            ).rooms.contains(channel),
        ensures
            final (self).inv(),
            final (self).has_guild(guild),
            room_result is None ==> r == Err::<u64, OpError>(OpError::PlatformUnavailable) && final (
            self).guild_state(guild) == old(self).found_or_fresh(guild),
            room_result matches Some(channel) ==> r == Ok::<u64, OpError>(channel) && final (
            self).guild_state(guild) == record_lawsuit(
                old(self).found_or_fresh(guild),
                new_lawsuit_model(req, lawsuit_id, channel),
            ),
            forall|g2: u64|
                g2 != guild ==> (#[trigger] final (self).has_guild(g2)) == old(self).has_guild(g2),
            forall|g2: u64|
                g2 != guild && old(self).has_guild(g2) ==> (#[trigger] final (self).guild_state(g2))
                    == old(self).guild_state(g2),
    {
        let i = self.find_or_insert_guild_state(guild);
        let ghost pre = *self;
        let (key, mut st) = self.entries.remove(i);
        let r = st.create_finish(req, lawsuit_id, room_result);
        self.entries.insert(i, (key, st));
        proof {
            assert(key == guild);
            lemma_entry_update(pre, *self, i as int, guild, st);
            lemma_chain_preserved(*old(self), pre, *self, guild);
        }
        r
    }

    /// Close the active lawsuit hosted in `room_id` of `guild`;
    /// see [`GuildState::close`].
    pub fn close_lawsuit(
        &mut self,
        guild: u64,
        actor: u64,
        room_id: u64,
        verdict: String,
        permission_override: bool,
    ) -> (r: Result<(), OpError>)
        requires
            old(self).inv(),
        ensures
            final (self).inv(),
            final (self).has_guild(guild),
            !has_active_lawsuit(old(self).found_or_fresh(guild), room_id) ==> r == Err::<
                (),
                OpError,
            >(OpError::NoActiveLawsuit) && final (self).guild_state(guild) == old(
                self,
            ).found_or_fresh(guild),
            has_active_lawsuit(old(self).found_or_fresh(guild), room_id) ==> ({
                let m0 = old(self).found_or_fresh(guild);
                let k = active_index(m0, room_id);
                if actor == m0.lawsuits[k].judge || permission_override {
                    r == Ok::<(), OpError>(()) && final (self).guild_state(guild) == close_at(
                        m0,
                        k,
                        verdict@,
                    )
                } else {
                    r == Err::<(), OpError>(OpError::Forbidden) && final (self).guild_state(guild)
                        == m0
                }
            }),
            forall|g2: u64|
                g2 != guild ==> (#[trigger] final (self).has_guild(g2)) == old(self).has_guild(g2),
            forall|g2: u64|
                g2 != guild && old(self).has_guild(g2) ==> (#[trigger] final (self).guild_state(g2))
                    == old(self).guild_state(g2),
    {
        let i = self.find_or_insert_guild_state(guild);
        let ghost pre = *self;
        let (key, mut st) = self.entries.remove(i);
        let r = st.close(actor, room_id, verdict, permission_override);
        self.entries.insert(i, (key, st));
        proof {
            assert(key == guild);
            lemma_entry_update(pre, *self, i as int, guild, st);
            lemma_chain_preserved(*old(self), pre, *self, guild);
        }
        r
    }

    /// Arrest `user` in `guild`; see [`GuildState::arrest`].
    pub fn arrest(&mut self, guild: u64, actor_can_manage: bool, user: u64) -> (r: Result<
        u64,
        OpError,
    >)
        requires
            old(self).inv(),
        ensures
            final (self).inv(),
            final (self).has_guild(guild),
            !actor_can_manage ==> r == Err::<u64, OpError>(OpError::Forbidden) && final (
            self).guild_state(guild) == old(self).found_or_fresh(guild),
            actor_can_manage && old(self).found_or_fresh(guild).prison_role is None ==> r == Err::<
                u64,
                OpError,
            >(OpError::Unconfigured) && final (self).guild_state(guild) == old(self).found_or_fresh(
                guild,
            ),
            actor_can_manage ==> (old(self).found_or_fresh(guild).prison_role matches Some(role)
                ==> r == Ok::<u64, OpError>(role) && final (self).guild_state(guild) == confine(
                old(self).found_or_fresh(guild),
                user,
            )),
            forall|g2: u64|
                g2 != guild ==> (#[trigger] final (self).has_guild(g2)) == old(self).has_guild(g2),
            forall|g2: u64|
                g2 != guild && old(self).has_guild(g2) ==> (#[trigger] final (self).guild_state(g2))
                    == old(self).guild_state(g2),
    {
        let i = self.find_or_insert_guild_state(guild);
        let ghost pre = *self;
        let (key, mut st) = self.entries.remove(i);
        let r = st.arrest(actor_can_manage, user);
        self.entries.insert(i, (key, st));
        proof {
            assert(key == guild);
            lemma_entry_update(pre, *self, i as int, guild, st);
            lemma_chain_preserved(*old(self), pre, *self, guild);
        }
        r
    }

    /// Release `user` in `guild`; see [`GuildState::release`].
    pub fn release(&mut self, guild: u64, actor_can_manage: bool, user: u64) -> (r: Result<
        u64,
        OpError,
    >)
        requires
            old(self).inv(),
        ensures
            final (self).inv(),
            final (self).has_guild(guild),
            !actor_can_manage ==> r == Err::<u64, OpError>(OpError::Forbidden) && final (
            self).guild_state(guild) == old(self).found_or_fresh(guild),
            actor_can_manage && old(self).found_or_fresh(guild).prison_role is None ==> r == Err::<
                u64,
                OpError,
            >(OpError::Unconfigured) && final (self).guild_state(guild) == old(self).found_or_fresh(
                guild,
            ),
            actor_can_manage ==> (old(self).found_or_fresh(guild).prison_role matches Some(role)
                ==> r == Ok::<u64, OpError>(role) && final (self).guild_state(guild) == free_member(
                old(self).found_or_fresh(guild),
                user,
            )),
            forall|g2: u64|
                g2 != guild ==> (#[trigger] final (self).has_guild(g2)) == old(self).has_guild(g2),
            forall|g2: u64|
                g2 != guild && old(self).has_guild(g2) ==> (#[trigger] final (self).guild_state(g2))
                    == old(self).guild_state(g2),
    {
        let i = self.find_or_insert_guild_state(guild);
        let ghost pre = *self;
        let (key, mut st) = self.entries.remove(i);
        let r = st.release(actor_can_manage, user);
        self.entries.insert(i, (key, st));
        proof {
            assert(key == guild);
            lemma_entry_update(pre, *self, i as int, guild, st);
            lemma_chain_preserved(*old(self), pre, *self, guild);
        }
        r
    }

    /// Handle a member-joined event: fetch (or create) the guild record and
    /// decide the reconciliation action; see [`GuildState::reconcile_on_join`].
    pub fn member_joined(&mut self, guild: u64, user: u64) -> (r: Option<u64>)
        requires
            old(self).inv(),
        ensures
            final (self).inv(),
            final (self).has_guild(guild),
            final (self).guild_state(guild) == old(self).found_or_fresh(guild),
            r == reconcile_action(old(self).found_or_fresh(guild), user),
            forall|g2: u64|
                g2 != guild ==> (#[trigger] final (self).has_guild(g2)) == old(self).has_guild(g2),
            forall|g2: u64|
                g2 != guild && old(self).has_guild(g2) ==> (#[trigger] final (self).guild_state(g2))
                    == old(self).guild_state(g2),
    {
        let i = self.find_or_insert_guild_state(guild);
        self.entries[i].1.reconcile_on_join(user)
    }
}

/// An index whose key matches is the unique index of that guild.
proof fn lemma_guild_index_at(s: Store, guild: u64, i: int)
    requires
        s.keys_unique(),
        0 <= i < s.entries@.len(),
        s.entries@[i].0 == guild,
    ensures
        s.has_guild(guild),
        s.guild_index(guild) == i,
{
    assert(s.has_guild(guild));
    let j = s.guild_index(guild);
    assert(0 <= j < s.entries@.len() && s.entries@[j].0 == guild);
    if i < j {
        assert(s.entries@[i].0 != s.entries@[j].0);
    } else if j < i {
        assert(s.entries@[j].0 != s.entries@[i].0);
    }
}

/// Removing the record at `i` removes exactly that guild and keeps every
/// other record, with the store invariant intact.
proof fn lemma_entry_removed(pre: Store, post: Store, i: int, guild: u64)
    requires
        pre.inv(),
        0 <= i < pre.entries@.len(),
        pre.entries@[i].0 == guild,
        post.entries@ == pre.entries@.remove(i),
    ensures
        post.inv(),
        !post.has_guild(guild),
        forall|g2: u64| g2 != guild ==> (#[trigger] post.has_guild(g2)) == pre.has_guild(g2),
        forall|g2: u64|
            g2 != guild && pre.has_guild(g2) ==> (#[trigger] post.guild_state(g2))
                == pre.guild_state(g2),
{
    pre.entries@.remove_ensures(i);
    assert forall|a: int, b: int|
        #![trigger post.entries@[a], post.entries@[b]]
        0 <= a < b < post.entries@.len() implies post.entries@[a].0 != post.entries@[b].0 by {
        if a < i {
            assert(post.entries@[a] == pre.entries@[a]);
        } else {
            assert(post.entries@[a] == pre.entries@[a + 1]);
        }
        if b < i {
            assert(post.entries@[b] == pre.entries@[b]);
        } else {
            assert(post.entries@[b] == pre.entries@[b + 1]);
        }
    }
    assert forall|a: int|
        0 <= a < post.entries@.len() implies (#[trigger] post.entries@[a]).1.inv() by {
        if a < i {
            assert(post.entries@[a] == pre.entries@[a]);
        } else {
            assert(post.entries@[a] == pre.entries@[a + 1]);
        }
    }
    assert(!post.has_guild(guild)) by {
        if post.has_guild(guild) {
            let a = post.guild_index(guild);
            assert(0 <= a < post.entries@.len() && post.entries@[a].0 == guild);
            if a < i {
                assert(pre.entries@[a].0 == guild);
                assert(pre.entries@[a].0 != pre.entries@[i].0);
            } else {
                assert(pre.entries@[a + 1].0 == guild);
                assert(pre.entries@[i].0 != pre.entries@[a + 1].0);
            }
        }
    }
    assert forall|g2: u64| g2 != guild implies (#[trigger] post.has_guild(g2)) == pre.has_guild(g2)
        by {
        if post.has_guild(g2) {
            let a = post.guild_index(g2);
            assert(0 <= a < post.entries@.len() && post.entries@[a].0 == g2);
            if a < i {
                assert(pre.entries@[a].0 == g2);
            } else {
                assert(pre.entries@[a + 1].0 == g2);
            }
            assert(pre.has_guild(g2));
        }
        if pre.has_guild(g2) {
            let a = pre.guild_index(g2);
            assert(0 <= a < pre.entries@.len() && pre.entries@[a].0 == g2);
            assert(a != i);
            if a < i {
                assert(post.entries@[a].0 == g2);
            } else {
                assert(post.entries@[a - 1] == pre.entries@[a]);
            }
            assert(post.has_guild(g2));
        }
    }
    assert forall|g2: u64|
        g2 != guild && pre.has_guild(g2) implies (#[trigger] post.guild_state(g2))
        == pre.guild_state(g2) by {
        let a = pre.guild_index(g2);
        assert(0 <= a < pre.entries@.len() && pre.entries@[a].0 == g2);
        lemma_guild_index_at(pre, g2, a);
        assert(a != i);
        if a < i {
            assert(post.entries@[a] == pre.entries@[a]);
            lemma_guild_index_at(post, g2, a);
        } else {
            assert(post.entries@[a - 1] == pre.entries@[a]);
            lemma_guild_index_at(post, g2, a - 1);
        }
    }
}

/// Replacing the record at `i` by another record for the same guild leaves
/// every other guild's record untouched and keeps the store invariant.
proof fn lemma_entry_update(pre: Store, post: Store, i: int, guild: u64, st: GuildState)
    requires
        pre.inv(),
        0 <= i < pre.entries@.len(),
        pre.entries@[i].0 == guild,
        post.entries@ == pre.entries@.remove(i).insert(i, (guild, st)),
        st.inv(),
    ensures
        post.inv(),
        post.has_guild(guild),
        post.guild_state(guild) == st@,
        forall|g2: u64| g2 != guild ==> (#[trigger] post.has_guild(g2)) == pre.has_guild(g2),
        forall|g2: u64|
            g2 != guild && pre.has_guild(g2) ==> (#[trigger] post.guild_state(g2))
                == pre.guild_state(g2),
{
    pre.entries@.remove_ensures(i);
    pre.entries@.remove(i).insert_ensures(i, (guild, st));
    assert(post.entries@ =~= pre.entries@.update(i, (guild, st)));
    assert forall|a: int| 0 <= a < post.entries@.len() implies (#[trigger] post.entries@[a]).0
        == pre.entries@[a].0 by {
        if a != i {
            assert(post.entries@[a] == pre.entries@[a]);
        }
    }
    assert forall|a: int, b: int|
        #![trigger post.entries@[a], post.entries@[b]]
        0 <= a < b < post.entries@.len() implies post.entries@[a].0 != post.entries@[b].0 by {
        assert(pre.entries@[a].0 != pre.entries@[b].0);
    }
    assert forall|a: int|
        0 <= a < post.entries@.len() implies (#[trigger] post.entries@[a]).1.inv() by {
        if a != i {
            assert(post.entries@[a] == pre.entries@[a]);
        } else {
            assert(post.entries@[a].1 == st);
        }
    }
    lemma_guild_index_at(post, guild, i);
    assert(post.entries@[i].1 == st);
    assert forall|g2: u64| g2 != guild implies (#[trigger] post.has_guild(g2)) == pre.has_guild(g2)
        by {
        if post.has_guild(g2) {
            let a = post.guild_index(g2);
            assert(0 <= a < post.entries@.len() && post.entries@[a].0 == g2);
            assert(pre.entries@[a].0 == g2);
            assert(pre.has_guild(g2));
        }
        if pre.has_guild(g2) {
            let a = pre.guild_index(g2);
            assert(0 <= a < pre.entries@.len() && pre.entries@[a].0 == g2);
            assert(post.entries@[a].0 == g2);
            assert(post.has_guild(g2));
        }
    }
    assert forall|g2: u64|
        g2 != guild && pre.has_guild(g2) implies (#[trigger] post.guild_state(g2))
        == pre.guild_state(g2) by {
        let a = pre.guild_index(g2);
        assert(0 <= a < pre.entries@.len() && pre.entries@[a].0 == g2);
        lemma_guild_index_at(pre, g2, a);
        assert(a != i);
        assert(post.entries@[a] == pre.entries@[a]);
        lemma_guild_index_at(post, g2, a);
    }
}

/// Chaining the two steps of a read-modify-write (find-or-insert, then
/// replace) preserves every other guild's record end to end.
proof fn lemma_chain_preserved(orig: Store, pre: Store, post: Store, guild: u64)
    requires
        forall|g2: u64| g2 != guild ==> (#[trigger] pre.has_guild(g2)) == orig.has_guild(g2),
        forall|g2: u64|
            g2 != guild && orig.has_guild(g2) ==> (#[trigger] pre.guild_state(g2))
                == orig.guild_state(g2),
        forall|g2: u64| g2 != guild ==> (#[trigger] post.has_guild(g2)) == pre.has_guild(g2),
        forall|g2: u64|
            g2 != guild && pre.has_guild(g2) ==> (#[trigger] post.guild_state(g2))
                == pre.guild_state(g2),
    ensures
        forall|g2: u64| g2 != guild ==> (#[trigger] post.has_guild(g2)) == orig.has_guild(g2),
        forall|g2: u64|
            g2 != guild && orig.has_guild(g2) ==> (#[trigger] post.guild_state(g2))
                == orig.guild_state(g2),
{
    assert forall|g2: u64| g2 != guild implies (#[trigger] post.has_guild(g2)) == orig.has_guild(
        g2,
    ) by {
        assert(pre.has_guild(g2) == orig.has_guild(g2));
    }
    assert forall|g2: u64|
        g2 != guild && orig.has_guild(g2) implies (#[trigger] post.guild_state(g2))
        == orig.guild_state(g2) by {
        assert(pre.has_guild(g2) == orig.has_guild(g2));
        assert(pre.guild_state(g2) == orig.guild_state(g2));
    }
}

/// Guild clear is total: once a guild's record is deleted, the record the
/// next find-or-insert works on is the fresh empty one — no lawsuit, room or
/// confinement entry from before remains.
pub proof fn lemma_clear_is_total(s: Store, guild: u64)
    requires
        !s.has_guild(guild),
    ensures
        s.found_or_fresh(guild) == empty_state(),
{
}

} // verus!
