//! Batch dispatch: accumulate recipients by user id and by role id, set one
//! message, and publish it exactly once into the inbox of every resolved
//! recipient.

use vstd::prelude::*;

use crate::channel::ring_advanced;
use crate::error::Error;
use crate::events::copy_event;
use crate::events::Event;
use crate::registry::ConnectedUsers;
use crate::role_map::vec_contains_u64;
use crate::role_map::RoleUserMap;

verus! {

/// Accumulates recipients and one message, then fans the message out.
pub struct BulkMessageBuilder {
    pub users: Vec<u64>,
    pub roles: Vec<u64>,
    pub message: Option<Event>,
}

/// `id` is reached through one of the listed roles.
pub open spec fn role_recipient(roles: Seq<u64>, rm: RoleUserMap, id: u64) -> bool {
    exists|ri: int| 0 <= ri < roles.len() && #[trigger] rm.has_member(roles[ri], id)
}

/// `id` is a resolved recipient: listed directly, or reached through a
/// role. The union is taken whether or not the role list is empty.
pub open spec fn is_recipient(users: Seq<u64>, roles: Seq<u64>, rm: RoleUserMap, id: u64) -> bool {
    users.contains(id) || role_recipient(roles, rm, id)
}

impl ConnectedUsers {
    /// An empty builder.
    pub fn bulk_message_builder(&self) -> (r: BulkMessageBuilder)
        ensures
            r.users@ == Seq::<u64>::empty(),
            r.roles@ == Seq::<u64>::empty(),
            r.message is None,
    {
        BulkMessageBuilder { users: Vec::new(), roles: Vec::new(), message: Option::None }
    }
}

impl BulkMessageBuilder {
    /// Adds the given user snowflake ids to the list of recipients.
    pub fn add_user_recipients(&mut self, users: &Vec<u64>)
        ensures
            final(self).users@ == old(self).users@ + users@,
            final(self).roles@ == old(self).roles@,
            final(self).message == old(self).message,
    {
        let mut i: usize = 0;
        while i < users.len()
            invariant
                0 <= i <= users@.len(),
                self.users@ == old(self).users@ + users@.subrange(0, i as int),
                self.roles@ == old(self).roles@,
                self.message == old(self).message,
            decreases users@.len() - i,
        {
            self.users.push(users[i]);
            proof {
                assert(self.users@ =~= old(self).users@ + users@.subrange(0, (i + 1) as int));
            }
            i += 1;
        }
        proof {
            assert(users@.subrange(0, users@.len() as int) =~= users@);
        }
    }

    /// Adds all members holding the given role snowflake ids to the list of
    /// recipients.
    pub fn add_role_recipients(&mut self, roles: &Vec<u64>)
        ensures
            final(self).roles@ == old(self).roles@ + roles@,
            final(self).users@ == old(self).users@,
            final(self).message == old(self).message,
    {
        let mut i: usize = 0;
        while i < roles.len()
            invariant
                0 <= i <= roles@.len(),
                self.roles@ == old(self).roles@ + roles@.subrange(0, i as int),
                self.users@ == old(self).users@,
                self.message == old(self).message,
            decreases roles@.len() - i,
        {
            self.roles.push(roles[i]);
            proof {
                assert(self.roles@ =~= old(self).roles@ + roles@.subrange(0, (i + 1) as int));
            }
            i += 1;
        }
        proof {
            assert(roles@.subrange(0, roles@.len() as int) =~= roles@);
        }
    }

    /// Sets the message to be sent to the recipients.
    pub fn set_message(&mut self, message: Event)
        ensures
            final(self).message == Option::Some(message),
            final(self).users@ == old(self).users@,
            final(self).roles@ == old(self).roles@,
    {
        self.message = Option::Some(message);
    }

    /// The resolved recipient ids: every listed user and every member of a
    /// listed role, each exactly once, without duplicates.
    fn resolve_recipients(&self, rm: &RoleUserMap) -> (r: Vec<u64>)
        requires
            rm.wf(),
        ensures
            forall|m: int, n: int| 0 <= m < n < r@.len() ==> r@[m] != r@[n],
            forall|id: u64| r@.contains(id) <==> is_recipient(self.users@, self.roles@, *rm, id),
    {
        let mut recipients: Vec<u64> = Vec::new();
        let mut ri: usize = 0;
        while ri < self.roles.len()
            invariant
                0 <= ri <= self.roles@.len(),
                forall|m: int, n: int|
                    0 <= m < n < recipients@.len() ==> recipients@[m] != recipients@[n],
                forall|id: u64|
                    recipients@.contains(id) ==> is_recipient(self.users@, self.roles@, *rm, id),
                forall|k: int, id: u64|
                    0 <= k < ri && #[trigger] rm.has_member(self.roles@[k], id)
                        ==> recipients@.contains(id),
            decreases self.roles@.len() - ri,
        {
            let role = self.roles[ri];
            match rm.map.get(role) {
                Option::Some(users_for_role) => {
                    let ghost role_users = users_for_role@;
                    let mut ui: usize = 0;
                    while ui < users_for_role.len()
                        invariant
                            0 <= ui <= role_users.len(),
                            users_for_role@ == role_users,
                            rm.map@.contains_key(role) && rm.map@[role]@ == role_users,
                            forall|m: int, n: int|
                                0 <= m < n < recipients@.len() ==> recipients@[m]
                                    != recipients@[n],
                            forall|id: u64|
                                recipients@.contains(id) ==> is_recipient(
                                    self.users@,
                                    self.roles@,
                                    *rm,
                                    id,
                                ),
                            forall|k: int, id: u64|
                                0 <= k < ri && #[trigger] rm.has_member(self.roles@[k], id)
                                    ==> recipients@.contains(id),
                            forall|m: int|
                                0 <= m < ui ==> recipients@.contains(#[trigger] role_users[m]),
                        decreases role_users.len() - ui,
                    {
                        let uid = users_for_role[ui];
                        let ghost rs0 = recipients@;
                        if !vec_contains_u64(&recipients, uid) {
                            recipients.push(uid);
                            proof {
                                let rs = recipients@;
                                assert(rs.drop_last() =~= rs0);
                                assert(forall|m: int|
                                    0 <= m < rs.len() - 1 ==> rs[m] == #[trigger] rs0[m]);
                                assert(rs[rs.len() - 1] == uid);
                                assert(rm.has_member(self.roles@[ri as int], uid)) by {
                                    assert(role_users[ui as int] == uid);
                                    assert(rm.map@[self.roles@[ri as int]]@.contains(uid));
                                }
                                assert forall|id: u64|
                                    rs.contains(id) implies is_recipient(
                                    self.users@,
                                    self.roles@,
                                    *rm,
                                    id,
                                ) by {
                                    let m = choose|m: int|
                                        0 <= m < rs.len() && #[trigger] rs[m] == id;
                                    if m < rs.len() - 1 {
                                        assert(rs0[m] == id);
                                        assert(rs0.contains(id));
                                    } else {
                                        assert(role_recipient(self.roles@, *rm, id));
                                    }
                                }
                                assert forall|id: u64| rs0.contains(id) implies rs.contains(
                                    id,
                                ) by {
                                    let m = choose|m: int|
                                        0 <= m < rs0.len() && #[trigger] rs0[m] == id;
                                    assert(rs[m] == id);
                                }
                            }
                        }
                        ui += 1;
                    }
                },
                Option::None => {},
            }
            proof {
                assert forall|k: int, id: u64|
                    0 <= k < ri + 1 && #[trigger] rm.has_member(self.roles@[k], id)
                        implies recipients@.contains(id) by {
                    if k == ri {
                        assert(rm.map@[self.roles@[k]]@.contains(id));
                        let m = choose|m: int|
                            0 <= m < rm.map@[self.roles@[k]]@.len()
                                && #[trigger] rm.map@[self.roles@[k]]@[m] == id;
                        assert(recipients@.contains(rm.map@[self.roles@[k]]@[m]));
                    }
                }
            }
            ri += 1;
        }
        let mut ui: usize = 0;
        while ui < self.users.len()
            invariant
                0 <= ui <= self.users@.len(),
                forall|m: int, n: int|
                    0 <= m < n < recipients@.len() ==> recipients@[m] != recipients@[n],
                forall|id: u64|
                    recipients@.contains(id) ==> is_recipient(self.users@, self.roles@, *rm, id),
                forall|k: int, id: u64|
                    0 <= k < self.roles@.len() && #[trigger] rm.has_member(self.roles@[k], id)
                        ==> recipients@.contains(id),
                forall|m: int|
                    0 <= m < ui ==> recipients@.contains(#[trigger] self.users@[m]),
            decreases self.users@.len() - ui,
        {
            let uid = self.users[ui];
            let ghost rs0 = recipients@;
            if !vec_contains_u64(&recipients, uid) {
                recipients.push(uid);
                proof {
                    let rs = recipients@;
                    assert(rs.drop_last() =~= rs0);
                    assert(forall|m: int| 0 <= m < rs.len() - 1 ==> rs[m] == #[trigger] rs0[m]);
                    assert(rs[rs.len() - 1] == uid);
                    assert(self.users@.contains(uid)) by {
                        assert(self.users@[ui as int] == uid);
                    }
                    assert forall|id: u64|
                        rs.contains(id) implies is_recipient(self.users@, self.roles@, *rm, id) by {
                        let m = choose|m: int| 0 <= m < rs.len() && #[trigger] rs[m] == id;
                        if m < rs.len() - 1 {
                            assert(rs0[m] == id);
                            assert(rs0.contains(id));
                        }
                    }
                    assert forall|id: u64| rs0.contains(id) implies rs.contains(id) by {
                        let m = choose|m: int| 0 <= m < rs0.len() && #[trigger] rs0[m] == id;
                        assert(rs[m] == id);
                    }
                }
            }
            ui += 1;
        }
        proof {
            assert forall|id: u64|
                is_recipient(self.users@, self.roles@, *rm, id) implies recipients@.contains(
                id,
            ) by {
                if self.users@.contains(id) {
                    let m = choose|m: int|
                        0 <= m < self.users@.len() && #[trigger] self.users@[m] == id;
                    assert(recipients@.contains(self.users@[m]));
                } else {
                    let k = choose|k: int|
                        0 <= k < self.roles@.len() && #[trigger] rm.has_member(
                            self.roles@[k],
                            id,
                        );
                    assert(recipients@.contains(id));
                }
            }
        }
        recipients
    }

    /// Sends the message to all recipients: the union of the listed users
    /// and the members of the listed roles, deduplicated, each receiving
    /// exactly one copy in its inbox. Recipients without an inbox are
    /// silently skipped. Fails with [`Error::NoMessage`] — and changes
    /// nothing — when no message was set; fails with [`Error::Dispatch`]
    /// when a recipient's inbox cannot accept another event.
    pub fn send(self, connected_users: &mut ConnectedUsers) -> (r: Result<(), Error>)
        requires
            old(connected_users).wf(),
        ensures
            final(connected_users).wf(),
            final(connected_users).store.users@ == old(connected_users).store.users@,
            final(connected_users).store.resumeable_clients_store == old(connected_users).store.resumeable_clients_store,
            final(connected_users).role_user_map == old(connected_users).role_user_map,
            forall|id: u64|
                final(connected_users).store.inboxes@.contains_key(id) == old(connected_users).store.inboxes@.contains_key(id),
            self.message is None ==> r == Result::<(), Error>::Err(Error::NoMessage) && *final(connected_users) == *old(connected_users),
            self.message is Some && r is Ok ==> forall|id: u64|
                old(connected_users).store.inboxes@.contains_key(id)
                    ==> if is_recipient(self.users@, self.roles@, old(connected_users).role_user_map, id) {
                    ring_advanced(
                        old(connected_users).store.inboxes@[id],
                        #[trigger] final(connected_users).store.inboxes@[id],
                        self.message->Some_0@,
                    )
                } else {
                    final(connected_users).store.inboxes@[id] == old(connected_users).store.inboxes@[id]
                },
            self.message is Some ==> forall|id: u64|
                old(connected_users).store.inboxes@.contains_key(id)
                    ==> ring_advanced(
                    old(connected_users).store.inboxes@[id],
                    #[trigger] final(connected_users).store.inboxes@[id],
                    self.message->Some_0@,
                ) || final(connected_users).store.inboxes@[id] == old(connected_users).store.inboxes@[id],
            self.message is Some ==> (r matches Result::Err(e) ==> (e matches Error::Dispatch(
                culprit,
            ) && is_recipient(
                self.users@,
                self.roles@,
                old(connected_users).role_user_map,
                culprit,
            ) && old(connected_users).store.inboxes@.contains_key(culprit) && old(
                connected_users,
            ).store.inboxes@[culprit].spec_end() == u64::MAX)),
            // Success is owed: the send fails only when some recipient's
            // inbox has exhausted its global index space.
            self.message is Some && (forall|id: u64|
                is_recipient(self.users@, self.roles@, old(connected_users).role_user_map, id)
                    && old(connected_users).store.inboxes@.contains_key(id) ==> (
                #[trigger] old(connected_users).store.inboxes@[id]).spec_end() < u64::MAX)
                ==> r is Ok,
    {
        let message = match self.message {
            Option::None => {
                return Result::Err(Error::NoMessage);
            },
            Option::Some(ref m) => m,
        };
        let recipients = self.resolve_recipients(&connected_users.role_user_map);
        let ghost rm0 = connected_users.role_user_map;
        let mut i: usize = 0;
        while i < recipients.len()
            invariant
                0 <= i <= recipients@.len(),
                connected_users.wf(),
                connected_users.role_user_map == rm0,
                connected_users.store.users@ == old(connected_users).store.users@,
                connected_users.store.resumeable_clients_store == old(connected_users).store.resumeable_clients_store,
                forall|m: int, n: int|
                    0 <= m < n < recipients@.len() ==> recipients@[m] != recipients@[n],
                forall|id: u64|
                    recipients@.contains(id) <==> is_recipient(self.users@, self.roles@, rm0, id),
                forall|id: u64|
                    connected_users.store.inboxes@.contains_key(id) == old(connected_users).store.inboxes@.contains_key(id),
                forall|id: u64|
                    old(connected_users).store.inboxes@.contains_key(id)
                        ==> if recipients@.subrange(0, i as int).contains(id) {
                        ring_advanced(
                            old(connected_users).store.inboxes@[id],
                            #[trigger] connected_users.store.inboxes@[id],
                            self.message->Some_0@,
                        )
                    } else {
                        connected_users.store.inboxes@[id] == old(connected_users).store.inboxes@[id]
                    },
            decreases recipients@.len() - i,
        {
            let id = recipients[i];
            let ghost pre_inboxes = connected_users.store.inboxes@;
            match connected_users.store.inboxes.take(id) {
                Option::Some(mut ring) => {
                    let len64 = ring.buffer.len() as u64;
                    if ring.base >= u64::MAX - len64 {
                        connected_users.store.inboxes.insert(id, ring);
                        proof {
                            assert(connected_users.store.inboxes@ =~= pre_inboxes);
                            assert(recipients@.contains(id)) by {
                                assert(recipients@[i as int] == id);
                            }
                        }
                        return Result::Err(Error::Dispatch(id));
                    }
                    ring.send(copy_event(message));
                    proof {
                        assert(ring_advanced(pre_inboxes[id], ring, self.message->Some_0@)) by {
                            let pre = pre_inboxes[id];
                            if pre.buffer@.len() < pre.capacity {
                                assert(crate::channel::ring_view(ring) =~= crate::channel::ring_view(
                                    pre,
                                ).push(self.message->Some_0@));
                            } else {
                                assert(crate::channel::ring_view(ring) =~= crate::channel::ring_view(
                                    pre,
                                ).subrange(1, pre.buffer@.len() as int).push(
                                    self.message->Some_0@,
                                ));
                            }
                        }
                    }
                    connected_users.store.inboxes.insert(id, ring);
                },
                Option::None => {},
            }
            proof {
                let prefix = recipients@.subrange(0, i as int);
                let prefix2 = recipients@.subrange(0, (i + 1) as int);
                assert(forall|m: int| 0 <= m < i ==> prefix2[m] == #[trigger] prefix[m]);
                assert(prefix2[i as int] == id);
                assert forall|id2: u64| prefix2.contains(id2) implies prefix.contains(id2) || id2
                    == id by {
                    let m = choose|m: int| 0 <= m < prefix2.len() && #[trigger] prefix2[m] == id2;
                    if m < i {
                        assert(prefix[m] == id2);
                    }
                }
                assert forall|id2: u64| prefix.contains(id2) implies prefix2.contains(id2) by {
                    let m = choose|m: int| 0 <= m < prefix.len() && #[trigger] prefix[m] == id2;
                    assert(prefix2[m] == id2);
                }
                assert(!prefix.contains(id)) by {
                    if prefix.contains(id) {
                        let m = choose|m: int| 0 <= m < i && #[trigger] prefix[m] == id;
                        assert(recipients@[m] == recipients@[i as int]);
                    }
                }
            }
            i += 1;
        }
        proof {
            assert(recipients@.subrange(0, recipients@.len() as int) =~= recipients@);
        }
        Result::Ok(())
    }
}

} // verus!
