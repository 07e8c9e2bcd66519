//! The confinement manager: arrest and release bookkeeping, role
//! configuration, and the join-time reconciliation that makes confinement
//! durable across the platform discarding a rejoining member's roles.

use vstd::prelude::*;

use crate::model::{no_dups, GuildState, OpError, StateModel};

verus! {

/// The record after confining `user`: the entry set gains the user; nothing
/// else changes.
pub open spec fn confine(m: StateModel, user: u64) -> StateModel {
    StateModel { prisoners: m.prisoners.insert(user), ..m }
}

/// The record after releasing `user`: the entry set loses the user; nothing
/// else changes.
pub open spec fn free_member(m: StateModel, user: u64) -> StateModel {
    StateModel { prisoners: m.prisoners.remove(user), ..m }
}

/// The reconciliation decision on a membership join: the role to (re-)assign
/// to the joining member, or `None` when no role is configured or no
/// confinement entry exists for the member.
pub open spec fn reconcile_action(m: StateModel, user: u64) -> Option<u64> {
    if m.prison_role is Some && m.prisoners.contains(user) {
        m.prison_role
    } else {
        None
    }
}

/// Dropping the one occurrence of `user` from a duplicate-free sequence keeps
/// every other element and keeps the sequence duplicate-free.
proof fn lemma_drop_unique_occurrence(p0: Seq<u64>, k: int, user: u64)
    requires
        no_dups(p0),
        0 <= k < p0.len(),
        p0[k] == user,
    ensures
        forall|x: u64| #[trigger] p0.remove(k).contains(x) <==> (p0.contains(x) && x != user),
        no_dups(p0.remove(k)),
{
    p0.remove_ensures(k);
    assert forall|x: u64| #[trigger] p0.remove(k).contains(x) <==> (p0.contains(x) && x != user)
        by {
        let p1 = p0.remove(k);
        if p1.contains(x) {
            let i = choose|i: int| 0 <= i < p1.len() && p1[i] == x;
            if i < k {
                assert(p1[i] == p0[i]);
                assert(p0.contains(x));
                if x == user {
                    assert(p0[i] == p0[k]);
                    assert(false);
                }
            } else {
                assert(p1[i] == p0[i + 1]);
                assert(p0.contains(x));
                if x == user {
                    assert(p0[k] == p0[i + 1]);
                    assert(false);
                }
            }
        }
        if p0.contains(x) && x != user {
            let i = choose|i: int| 0 <= i < p0.len() && p0[i] == x;
            if i < k {
                assert(p1[i] == p0[i]);
                assert(p1.contains(x));
            } else {
                assert(i != k);
                assert(p1[i - 1] == p0[i]);
                assert(p1.contains(x));
            }
        }
    }
    assert forall|i: int, j: int|
        #![trigger p0.remove(k)[i], p0.remove(k)[j]]
        0 <= i < j < p0.remove(k).len() implies p0.remove(k)[i] != p0.remove(k)[j] by {
        let p1 = p0.remove(k);
        if i < k {
            assert(p1[i] == p0[i]);
        } else {
            assert(p1[i] == p0[i + 1]);
        }
        if j < k {
            assert(p1[j] == p0[j]);
        } else {
            assert(p1[j] == p0[j + 1]);
        }
    }
}

impl GuildState {
    /// Stores the confinement role; demands guild-management authority.
    pub fn set_confinement_role(&mut self, actor_can_manage: bool, role: u64) -> (r: Result<
        (),
        OpError,
    >)
        requires
            old(self).inv(),
        ensures
            final (self).inv(),
            !actor_can_manage ==> r == Err::<(), OpError>(OpError::Forbidden) && *final (self)
                == *old(self),
            actor_can_manage ==> r == Ok::<(), OpError>(()) && final (self)@ == (StateModel {
                prison_role: Some(role),
                ..old(self)@
            }),
    {
        if !actor_can_manage {
            return Err(OpError::Forbidden);
        }
        self.prison_role = Some(role);
        Ok(())
    }

    /// Arrest: record the durable confinement entry for `user` and return the
    /// configured role for the caller to apply. The entry is persisted before
    /// any platform call, so a failure to apply the role leaves the entry in
    /// place for join-time reconciliation to heal.
    pub fn arrest(&mut self, actor_can_manage: bool, user: u64) -> (r: Result<u64, OpError>)
        requires
            old(self).inv(),
        ensures
            final (self).inv(),
            !actor_can_manage ==> r == Err::<u64, OpError>(OpError::Forbidden) && *final (self)
                == *old(self),
            actor_can_manage && old(self).prison_role is None ==> r == Err::<u64, OpError>(
                OpError::Unconfigured,
            ) && *final (self) == *old(self),
            actor_can_manage ==> (old(self).prison_role matches Some(role) ==> r == Ok::<
                u64,
                OpError,
            >(role) && final (self)@ == confine(old(self)@, user)),
    {
        if !actor_can_manage {
            return Err(OpError::Forbidden);
        }
        let role = match self.prison_role {
            None => {
                return Err(OpError::Unconfigured);
            },
            Some(role) => role,
        };
        if !self.is_confined(user) {
            let ghost p0 = self.prisoners@;
            self.prisoners.push(user);
            proof {
                let p1 = self.prisoners@;
                assert forall|x: u64| p1.contains(x) <==> (p0.contains(x) || x == user) by {
                    if p1.contains(x) {
                        let i = choose|i: int| 0 <= i < p1.len() && p1[i] == x;
                        if i < p0.len() {
                            assert(p0[i] == x);
                        }
                    }
                    if p0.contains(x) {
                        let i = choose|i: int| 0 <= i < p0.len() && p0[i] == x;
                        assert(p1[i] == x);
                    }
                    if x == user {
                        assert(p1[p0.len() as int] == user);
                    }
                }
                assert forall|i: int| 0 <= i < p0.len() implies p0[i] != user by {
                    if p0[i] == user {
                        assert(p0.contains(user));
                    }
                }
                assert(self@.prisoners =~= confine(old(self)@, user).prisoners);
                assert(self@ =~= confine(old(self)@, user));
            }
        } else {
            proof {
                assert(old(self)@.prisoners.contains(user));
                assert(self@.prisoners =~= confine(old(self)@, user).prisoners);
                assert(self@ =~= confine(old(self)@, user));
            }
        }
        Ok(role)
    }

    /// Release: remove the durable confinement entry for `user` and return the
    /// configured role for the caller to revoke. The entry is removed
    /// independently of role revocation: a lingering role is harmless, while a
    /// lingering entry would re-confine the member on the next join.
    pub fn release(&mut self, actor_can_manage: bool, user: u64) -> (r: Result<u64, OpError>)
        requires
            old(self).inv(),
        ensures
            final (self).inv(),
            !actor_can_manage ==> r == Err::<u64, OpError>(OpError::Forbidden) && *final (self)
                == *old(self),
            actor_can_manage && old(self).prison_role is None ==> r == Err::<u64, OpError>(
                OpError::Unconfigured,
            ) && *final (self) == *old(self),
            actor_can_manage ==> (old(self).prison_role matches Some(role) ==> r == Ok::<
                u64,
                OpError,
            >(role) && final (self)@ == free_member(old(self)@, user)),
    {
        if !actor_can_manage {
            return Err(OpError::Forbidden);
        }
        let role = match self.prison_role {
            None => {
                return Err(OpError::Unconfigured);
            },
            Some(role) => role,
        };
        let ghost p0 = self.prisoners@;
        let mut k: usize = 0;
        while k < self.prisoners.len()
            invariant
                k <= self.prisoners.len(),
                *self == *old(self),
                p0 == self.prisoners@,
                no_dups(p0),
                old(self).inv(),
                actor_can_manage,
                old(self).prison_role == Some(role),
                forall|j: int| 0 <= j < k ==> p0[j] != user,
            decreases self.prisoners.len() - k,
        {
            if self.prisoners[k] == user {
                self.prisoners.remove(k);
                proof {
                    lemma_drop_unique_occurrence(p0, k as int, user);
                    assert(self.prisoners@ == p0.remove(k as int));
                    assert forall|x: u64|
                        self@.prisoners.contains(x) <==> free_member(
                            old(self)@,
                            user,
                        ).prisoners.contains(x) by {
                        assert(p0.remove(k as int).contains(x) <==> (p0.contains(x) && x != user));
                    }
                    assert(self@.prisoners =~= free_member(old(self)@, user).prisoners);
                    assert(self@ =~= free_member(old(self)@, user));
                }
                return Ok(role);
            }
            k += 1;
        }
        proof {
            assert(!p0.contains(user)) by {
                if p0.contains(user) {
                    let i = choose|i: int| 0 <= i < p0.len() && p0[i] == user;
                    assert(p0[i] != user);
                }
            }
            assert(self@.prisoners =~= free_member(old(self)@, user).prisoners);
            assert(self@ =~= free_member(old(self)@, user));
        }
        Ok(role)
    }

    /// The reconciliation decision for a member who has just joined: returns
    /// the confinement role to (re-)assign exactly when one is configured and
    /// a confinement entry exists for the member, and `None` otherwise (in
    /// which case no platform call is to be made).
    pub fn reconcile_on_join(&self, user: u64) -> (r: Option<u64>)
        ensures
            r == reconcile_action(self@, user),
    {
        match self.prison_role {
            None => None,
            Some(role) => {
                if self.is_confined(user) {
                    Some(role)
                } else {
                    None
                }
            },
        }
    }
}

/// Confinement is durable: once an arrest has recorded the entry for `user`
/// while `role` is the configured confinement role, a join event for `user`
/// reconciles by re-assigning exactly that role — even if the platform had
/// stripped it in between, since reconciliation reads only the durable record.
pub proof fn lemma_confinement_durable(m: StateModel, user: u64, role: u64)
    requires
        m.prison_role == Some(role),
    ensures
        reconcile_action(confine(m, user), user) == Some(role),
{
    assert(confine(m, user).prisoners.contains(user));
}

/// Release clears durability: after a release has removed the entry for
/// `user`, a join event for `user` reconciles to no action — the role is not
/// re-assigned.
pub proof fn lemma_release_clears_durability(m: StateModel, user: u64)
    ensures
        reconcile_action(free_member(m, user), user) is None,
{
    assert(!free_member(m, user).prisoners.contains(user));
}

/// Reconciliation is a no-op for a member without a confinement entry: no
/// platform call is issued, so running it on every join is harmless.
pub proof fn lemma_reconcile_without_entry_is_noop(m: StateModel, user: u64)
    requires
        !m.prisoners.contains(user),
    ensures
        reconcile_action(m, user) is None,
{
}

} // verus!
