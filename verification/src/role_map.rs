//! The role-to-user reverse index: for every role on the server, the set of
//! users that have it.

use vstd::prelude::*;

use crate::idmap::IdMap;

verus! {

/// Whether `v` holds `x`.
pub fn vec_contains_u64(v: &Vec<u64>, x: u64) -> (r: bool)
    ensures
        r == v@.contains(x),
{
    let mut i: usize = 0;
    while i < v.len()
        invariant
            0 <= i <= v@.len(),
            forall|m: int| 0 <= m < i ==> v@[m] != x,
        decreases v@.len() - i,
    {
        if v[i] == x {
            return true;
        }
        i += 1;
    }
    false
}

/// Represents all existing roles on the server and the users that have
/// these roles: a map from role id to the user ids holding it.
pub struct RoleUserMap {
    pub map: IdMap<Vec<u64>>,
}

impl RoleUserMap {
    /// Well-formed: unique role keys, and no user listed twice for a role.
    pub open spec fn wf(&self) -> bool {
        &&& self.map.wf()
        &&& forall|r: u64|
            self.map@.contains_key(r) ==> (forall|i: int, j: int|
                0 <= i < j < (#[trigger] self.map@[r])@.len() ==> self.map@[r]@[i]
                    != self.map@[r]@[j])
    }

    /// `user` holds `role` according to the index.
    pub open spec fn has_member(&self, role: u64, user: u64) -> bool {
        self.map@.contains_key(role) && self.map@[role]@.contains(user)
    }

    /// An empty index.
    pub fn new() -> (r: RoleUserMap)
        ensures
            r.wf(),
            r.map@ == Map::<u64, Vec<u64>>::empty(),
    {
        RoleUserMap { map: IdMap::new() }
    }

    /// Fills the index from the two initial scans: all role ids, and all
    /// (user id, role id) membership pairs. Afterwards every scanned role id
    /// is a key — possibly with no users — and a user is listed under a role
    /// exactly when the scan had that pair. Pairs must reference scanned
    /// roles, as the store's foreign-key constraint guarantees.
    ///
    /// Meant to run once; later maintenance is event-driven.
    pub fn init(&mut self, roles: &Vec<u64>, member_roles: &Vec<(u64, u64)>)
        requires
            old(self).wf(),
            old(self).map@ == Map::<u64, Vec<u64>>::empty(),
            forall|m: int|
                0 <= m < member_roles@.len() ==> roles@.contains(
                    (#[trigger] member_roles@[m]).1,
                ),
        ensures
            final(self).wf(),
            forall|rid: u64| final(self).map@.contains_key(rid) <==> roles@.contains(rid),
            forall|m: int|
                0 <= m < member_roles@.len() ==> final(self).has_member(
                    (#[trigger] member_roles@[m]).1,
                    member_roles@[m].0,
                ),
            forall|rid: u64, uid: u64|
                #[trigger] final(self).has_member(rid, uid) ==> member_roles@.contains((uid, rid)),
    {
        let mut i: usize = 0;
        while i < roles.len()
            invariant
                0 <= i <= roles@.len(),
                self.map.wf(),
                forall|rid: u64|
                    self.map@.contains_key(rid) <==> roles@.subrange(0, i as int).contains(rid),
                forall|rid: u64|
                    self.map@.contains_key(rid) ==> (#[trigger] self.map@[rid])@ == Seq::<
                        u64,
                    >::empty(),
            decreases roles@.len() - i,
        {
            self.map.insert(roles[i], Vec::new());
            proof {
                assert forall|rid: u64|
                    self.map@.contains_key(rid) implies roles@.subrange(
                    0,
                    (i + 1) as int,
                ).contains(rid) by {
                    if rid == roles@[i as int] {
                        assert(roles@.subrange(0, (i + 1) as int)[i as int] == rid);
                    } else {
                        let m = choose|m: int|
                            0 <= m < i && roles@.subrange(0, i as int)[m] == rid;
                        assert(roles@.subrange(0, (i + 1) as int)[m] == rid);
                    }
                }
                assert forall|rid: u64|
                    roles@.subrange(0, (i + 1) as int).contains(rid) implies self.map@.contains_key(
                    rid,
                ) by {
                    let m = choose|m: int|
                        0 <= m <= i && #[trigger] roles@.subrange(0, (i + 1) as int)[m] == rid;
                    if m < i {
                        assert(roles@.subrange(0, i as int)[m] == rid);
                    }
                }
            }
            i += 1;
        }
        proof {
            assert(roles@.subrange(0, roles@.len() as int) =~= roles@);
        }
        let mut k: usize = 0;
        while k < member_roles.len()
            invariant
                0 <= k <= member_roles@.len(),
                self.wf(),
                forall|rid: u64| self.map@.contains_key(rid) <==> roles@.contains(rid),
                forall|rid: u64, uid: u64|
                    #[trigger] self.has_member(rid, uid) <==> member_roles@.subrange(
                        0,
                        k as int,
                    ).contains((uid, rid)),
            decreases member_roles@.len() - k,
        {
            let (uid, rid) = member_roles[k];
            let ghost start = *self;
            proof {
                assert(roles@.contains((#[trigger] member_roles@[k as int]).1));
            }
            let mut users_for_role = match self.map.take(rid) {
                Option::Some(v) => v,
                Option::None => {
                    proof {
                        assert(false);
                    }
                    Vec::new()
                },
            };
            let ghost old_users = users_for_role@;
            if !vec_contains_u64(&users_for_role, uid) {
                users_for_role.push(uid);
            }
            let ghost new_users = users_for_role@;
            self.map.insert(rid, users_for_role);
            proof {
                let pre = member_roles@.subrange(0, k as int);
                let post = member_roles@.subrange(0, (k + 1) as int);
                assert(post.drop_last() =~= pre);
                assert(forall|m: int| 0 <= m < k ==> post[m] == #[trigger] pre[m]);
                assert(post[k as int] == (uid, rid));
                assert(start.map@[rid]@ == old_users);
                assert(forall|u2: u64| new_users.contains(u2) <==> old_users.contains(u2) || u2
                    == uid) by {
                    if !old_users.contains(uid) {
                        assert(new_users.drop_last() =~= old_users);
                        assert(new_users.last() == uid);
                        assert(forall|m: int|
                            0 <= m < old_users.len() ==> #[trigger] new_users[m] == old_users[m]);
                        assert(new_users[new_users.len() - 1] == uid);
                    }
                }
                assert(self.map@ == start.map@.remove(rid).insert(rid, self.map@[rid]));
                assert(self.map@[rid]@ == new_users);
                assert forall|r2: u64, u2: u64| #[trigger]
                    self.has_member(r2, u2) implies post.contains((u2, r2)) by {
                    if r2 == rid {
                        if old_users.contains(u2) {
                            assert(start.has_member(r2, u2));
                            assert(pre.contains((u2, r2)));
                            let m = choose|m: int|
                                0 <= m < pre.len() && #[trigger] pre[m] == (u2, r2);
                            assert(post[m] == (u2, r2));
                        } else {
                            assert(u2 == uid);
                            assert(post.contains((uid, rid))) by {
                                assert(post[k as int] == (uid, rid));
                            }
                        }
                    } else {
                        assert(self.map@[r2] == start.map@[r2]);
                        assert(start.has_member(r2, u2));
                        assert(pre.contains((u2, r2)));
                        let m = choose|m: int| 0 <= m < pre.len() && #[trigger] pre[m] == (u2, r2);
                        assert(post[m] == (u2, r2));
                    }
                }
                assert forall|r2: u64, u2: u64|
                    post.contains((u2, r2)) implies #[trigger] self.has_member(r2, u2) by {
                    let m = choose|m: int| 0 <= m < post.len() && #[trigger] post[m] == (u2, r2);
                    if m < k {
                        assert(pre[m] == (u2, r2));
                        assert(pre.contains((u2, r2)));
                        assert(start.has_member(r2, u2));
                        if r2 == rid {
                            assert(old_users.contains(u2));
                            assert(new_users.contains(u2));
                        } else {
                            assert(self.map@[r2] == start.map@[r2]);
                        }
                    } else {
                        assert(u2 == uid && r2 == rid);
                        assert(new_users.contains(uid));
                    }
                }
            }
            k += 1;
        }
        proof {
            assert(member_roles@.subrange(0, member_roles@.len() as int) =~= member_roles@);
        }
    }
}

} // verus!
