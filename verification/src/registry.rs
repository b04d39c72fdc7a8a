//! The process-wide fan-out fabric: one [`GatewayUser`] per identity, each
//! owning the set of live [`GatewayClient`] sessions for that identity, an
//! inbox ring per user, and the disconnect bookkeeping for resumes.

use vstd::prelude::*;

use crate::channel::EventRing;
use crate::channel::RingReceiver;
use crate::channel::USER_INBOX_CAPACITY;
use crate::events::copy_bytes;
use crate::idmap::IdMap;
use crate::idmap::TokenMap;
use crate::resume::ResumableClientsStore;
use crate::resume::RESUME_STORE_CAPACITY;
use crate::role_map::vec_contains_u64;
use crate::role_map::RoleUserMap;

verus! {

/// A concrete session that a [`GatewayUser`] is connected to the gateway
/// with. The surrounding process owns the socket, the two tasks and the
/// kill switch for it; the core tracks the session token, the last
/// delivered sequence number, and the session's position in its user's
/// inbox ring.
pub struct GatewayClient {
    /// Token of the session used for this connection.
    pub session_token: Vec<u8>,
    /// The last sequence number delivered to this client.
    pub last_sequence: u64,
    /// This session's receiver on its user's inbox ring.
    pub receiver: RingReceiver,
}

/// A single identifiable user connected to the gateway — possibly with many
/// clients at the same time.
pub struct GatewayUser {
    /// The identity snowflake.
    pub id: u64,
    /// Sessions the user is connected with: session token to client.
    pub clients: TokenMap<GatewayClient>,
    /// Ids of the event publishers this user is subscribed to; each at most
    /// once, so the same identity never subscribes twice.
    pub subscriptions: Vec<u64>,
}

impl PartialEq for GatewayUser {
    /// Equality of users is identity: two records are the same user when
    /// they carry the same snowflake.
    fn eq(&self, other: &GatewayUser) -> (r: bool) {
        self.id == other.id
    }
}

impl vstd::std_specs::cmp::PartialEqSpecImpl for GatewayUser {
    open spec fn obeys_eq_spec() -> bool {
        true
    }

    open spec fn eq_spec(&self, other: &GatewayUser) -> bool {
        self.id == other.id
    }
}

/// Every client sits in its user's map under its own session token, and no
/// publisher is subscribed twice.
pub open spec fn user_wf(u: GatewayUser) -> bool {
    &&& u.clients.wf()
    &&& forall|t: Seq<u8>|
        u.clients@.contains_key(t) ==> (#[trigger] u.clients@[t]).session_token@ == t
    &&& forall|i: int, j: int|
        0 <= i < j < u.subscriptions@.len() ==> u.subscriptions@[i] != u.subscriptions@[j]
}

/// The guarded state of the registry: an inbox ring and a user record per
/// connected identity, plus the resumable-session store.
pub struct ConnectedUsersInner {
    pub inboxes: IdMap<EventRing>,
    pub users: IdMap<GatewayUser>,
    pub resumeable_clients_store: ResumableClientsStore,
}

/// An identity has an inbox exactly when it has a user record, every user
/// record carries its own id, and every part is well-formed.
pub open spec fn inner_wf(s: ConnectedUsersInner) -> bool {
    &&& s.inboxes.wf()
    &&& s.users.wf()
    &&& s.resumeable_clients_store.wf()
    &&& forall|id: u64| s.inboxes@.contains_key(id) <==> s.users@.contains_key(id)
    &&& forall|id: u64|
        s.users@.contains_key(id) ==> (#[trigger] s.users@[id]).id == id && user_wf(s.users@[id])
    &&& forall|id: u64| s.inboxes@.contains_key(id) ==> (#[trigger] s.inboxes@[id]).wf()
}

/// The process-wide registry of connected users together with the
/// role-to-user index.
pub struct ConnectedUsers {
    pub store: ConnectedUsersInner,
    pub role_user_map: RoleUserMap,
}

impl ConnectedUsers {
    /// Well-formed as a whole.
    pub open spec fn wf(&self) -> bool {
        inner_wf(self.store) && self.role_user_map.wf()
    }

    /// A new, empty registry.
    pub fn new() -> (r: ConnectedUsers)
        ensures
            r.wf(),
            r.store.users@ == Map::<u64, GatewayUser>::empty(),
            r.store.inboxes@ == Map::<u64, EventRing>::empty(),
            r.store.resumeable_clients_store.entries@ == Map::<
                Seq<u8>,
                crate::resume::DisconnectInfo,
            >::empty(),
            r.role_user_map.map@ == Map::<u64, Vec<u64>>::empty(),
    {
        ConnectedUsers {
            store: ConnectedUsersInner {
                inboxes: IdMap::new(),
                users: IdMap::new(),
                resumeable_clients_store: ResumableClientsStore::new(RESUME_STORE_CAPACITY),
            },
            role_user_map: RoleUserMap::new(),
        }
    }

    /// Read access to the guarded state.
    pub fn inner(&self) -> (r: &ConnectedUsersInner)
        ensures
            r == &self.store,
    {
        &self.store
    }

    /// Fills the role-to-user index from the two initial scans; see
    /// [`RoleUserMap::init`].
    pub fn init_role_user_map(&mut self, roles: &Vec<u64>, member_roles: &Vec<(u64, u64)>)
        requires
            old(self).wf(),
            old(self).role_user_map.map@ == Map::<u64, Vec<u64>>::empty(),
            forall|m: int|
                0 <= m < member_roles@.len() ==> roles@.contains(
                    (#[trigger] member_roles@[m]).1,
                ),
        ensures
            final(self).wf(),
            final(self).store == old(self).store,
            forall|rid: u64|
                final(self).role_user_map.map@.contains_key(rid) <==> roles@.contains(rid),
            forall|m: int|
                0 <= m < member_roles@.len() ==> final(self).role_user_map.has_member(
                    (#[trigger] member_roles@[m]).1,
                    member_roles@[m].0,
                ),
            forall|rid: u64, uid: u64|
                #[trigger] final(self).role_user_map.has_member(rid, uid)
                    ==> member_roles@.contains((uid, rid)),
    {
        self.role_user_map.init(roles, member_roles);
    }

    /// Registers a user: its outbox enters `inboxes` and the record enters
    /// `users`, both under the user's id.
    fn register(&mut self, user: GatewayUser)
        requires
            old(self).wf(),
            user_wf(user),
        ensures
            final(self).wf(),
            final(self).store.users@ == old(self).store.users@.insert(user.id, user),
            final(self).store.inboxes@.contains_key(user.id),
            final(self).store.inboxes@[user.id].buffer@ == Seq::<crate::events::Event>::empty(),
            final(self).store.inboxes@[user.id].capacity == USER_INBOX_CAPACITY,
            final(self).store.inboxes@[user.id].base == 0,
            forall|id: u64|
                id != user.id ==> final(self).store.inboxes@.contains_key(id) == old(self).store.inboxes@.contains_key(id),
            forall|id: u64|
                id != user.id && old(self).store.inboxes@.contains_key(id) ==> (#[trigger] final(self).store.inboxes@[id]) == old(self).store.inboxes@[id],
            final(self).store.resumeable_clients_store == old(self).store.resumeable_clients_store,
            final(self).role_user_map == old(self).role_user_map,
    {
        let id = user.id;
        self.store.inboxes.insert(id, EventRing::new(USER_INBOX_CAPACITY));
        self.store.users.insert(id, user);
    }

    /// Creates a user with the given clients and subscriptions and registers
    /// it, giving it a fresh inbox ring.
    pub fn new_user(&mut self, clients: TokenMap<GatewayClient>, id: u64, subscriptions: Vec<u64>)
        requires
            old(self).wf(),
            clients.wf(),
            forall|t: Seq<u8>|
                clients@.contains_key(t) ==> (#[trigger] clients@[t]).session_token@ == t,
            forall|i: int, j: int|
                0 <= i < j < subscriptions@.len() ==> subscriptions@[i] != subscriptions@[j],
        ensures
            final(self).wf(),
            final(self).store.users@.contains_key(id),
            final(self).store.users@[id].id == id,
            final(self).store.users@[id].clients@ == clients@,
            final(self).store.users@[id].subscriptions@ == subscriptions@,
            forall|id2: u64|
                id2 != id ==> final(self).store.users@.contains_key(id2) == old(self).store.users@.contains_key(id2),
            forall|id2: u64|
                id2 != id && old(self).store.users@.contains_key(id2) ==> (#[trigger] final(self).store.users@[id2]) == old(self).store.users@[id2],
            final(self).store.inboxes@.contains_key(id),
            final(self).store.inboxes@[id].buffer@ == Seq::<crate::events::Event>::empty(),
            final(self).store.inboxes@[id].capacity == USER_INBOX_CAPACITY,
            final(self).store.inboxes@[id].base == 0,
            forall|id2: u64|
                id2 != id ==> final(self).store.inboxes@.contains_key(id2) == old(self).store.inboxes@.contains_key(id2),
            forall|id2: u64|
                id2 != id && old(self).store.inboxes@.contains_key(id2) ==> (#[trigger] final(self).store.inboxes@[id2]) == old(self).store.inboxes@[id2],
            final(self).store.resumeable_clients_store == old(self).store.resumeable_clients_store,
            final(self).role_user_map == old(self).role_user_map,
    {
        let user = GatewayUser { id, clients, subscriptions };
        self.register(user);
    }

    /// Looks an identity up, creating and registering a fresh user — empty
    /// client map, no subscriptions — when none exists yet. Returns whether
    /// the user had to be created.
    pub fn get_user_or_new(&mut self, id: u64) -> (created: bool)
        requires
            old(self).wf(),
        ensures
            final(self).wf(),
            created == !old(self).store.users@.contains_key(id),
            final(self).store.users@.contains_key(id),
            !created ==> *final(self) == *old(self),
            created ==> final(self).store.users@[id].id == id && final(self).store.users@[id].clients@ == Map::<Seq<u8>, GatewayClient>::empty() && final(self).store.users@[id].subscriptions@ == Seq::<u64>::empty(),
            created ==> final(self).store.inboxes@.contains_key(id) && final(self).store.inboxes@[id].buffer@ == Seq::<crate::events::Event>::empty() && final(self).store.inboxes@[id].capacity == USER_INBOX_CAPACITY && final(self).store.inboxes@[id].base == 0,
            forall|id2: u64|
                id2 != id ==> final(self).store.inboxes@.contains_key(id2) == old(self).store.inboxes@.contains_key(id2),
            forall|id2: u64|
                id2 != id && old(self).store.inboxes@.contains_key(id2) ==> (#[trigger] final(self).store.inboxes@[id2]) == old(self).store.inboxes@[id2],
            final(self).store.resumeable_clients_store == old(self).store.resumeable_clients_store,
            final(self).role_user_map == old(self).role_user_map,
            forall|id2: u64|
                id2 != id ==> final(self).store.users@.contains_key(id2) == old(self).store.users@.contains_key(id2),
            forall|id2: u64|
                id2 != id && old(self).store.users@.contains_key(id2) ==> (#[trigger] final(self).store.users@[id2]) == old(self).store.users@[id2],
    {
        if self.store.users.contains_key(id) {
            false
        } else {
            self.new_user(TokenMap::new(), id, Vec::new());
            true
        }
    }

    /// Removes an identity from both `inboxes` and `users`.
    pub fn deregister(&mut self, user_id: u64)
        requires
            old(self).wf(),
        ensures
            final(self).wf(),
            final(self).store.users@ == old(self).store.users@.remove(user_id),
            final(self).store.inboxes@ == old(self).store.inboxes@.remove(user_id),
            final(self).store.resumeable_clients_store == old(self).store.resumeable_clients_store,
            final(self).role_user_map == old(self).role_user_map,
    {
        self.store.inboxes.remove(user_id);
        self.store.users.remove(user_id);
    }

    /// The inbox ring of an identity, if connected.
    pub fn inbox(&self, id: u64) -> (r: Option<&EventRing>)
        requires
            self.wf(),
        ensures
            match r {
                Option::Some(ring) => self.store.inboxes@.contains_key(id) && *ring
                    == self.store.inboxes@[id],
                Option::None => !self.store.inboxes@.contains_key(id),
            },
    {
        self.store.inboxes.get(id)
    }

    /// Creates a client for an existing user under the given session token,
    /// subscribed to the user's inbox ring from this moment on, and inserts
    /// it into the user's client map.
    pub fn new_client(&mut self, user_id: u64, session_token: &Vec<u8>, last_sequence: u64)
        requires
            old(self).wf(),
            old(self).store.users@.contains_key(user_id),
        ensures
            final(self).wf(),
            final(self).store.users@.contains_key(user_id),
            final(self).store.users@[user_id].clients@ == old(self).store.users@[user_id].clients@.insert(
                session_token@,
                final(self).store.users@[user_id].clients@[session_token@],
            ),
            final(self).store.users@[user_id].clients@[session_token@].session_token@
                == session_token@,
            final(self).store.users@[user_id].clients@[session_token@].last_sequence
                == last_sequence,
            final(self).store.users@[user_id].id == user_id,
            final(self).store.users@[user_id].subscriptions@ == old(self).store.users@[user_id].subscriptions@,
            forall|id2: u64|
                final(self).store.users@.contains_key(id2) == old(self).store.users@.contains_key(id2),
            forall|id2: u64|
                id2 != user_id && old(self).store.users@.contains_key(id2) ==> (#[trigger] final(self).store.users@[id2]) == old(self).store.users@[id2],
            final(self).store.inboxes@ == old(self).store.inboxes@,
            final(self).store.resumeable_clients_store == old(self).store.resumeable_clients_store,
            final(self).role_user_map == old(self).role_user_map,
    {
        let receiver = match self.store.inboxes.get(user_id) {
            Option::Some(ring) => ring.subscribe(),
            Option::None => {
                proof {
                    assert(false);
                }
                RingReceiver { pos: 0 }
            },
        };
        let mut user = match self.store.users.take(user_id) {
            Option::Some(u) => u,
            Option::None => {
                proof {
                    assert(false);
                }
                GatewayUser { id: user_id, clients: TokenMap::new(), subscriptions: Vec::new() }
            },
        };
        let client = GatewayClient {
            session_token: copy_bytes(session_token),
            last_sequence,
            receiver,
        };
        user.clients.insert(copy_bytes(session_token), client);
        self.store.users.insert(user_id, user);
        proof {
            assert(final(self).store.users@ =~= old(self).store.users@.insert(
                user_id,
                final(self).store.users@[user_id],
            ));
        }
    }

    /// Subscribes a user to a publisher, unless it is already subscribed:
    /// the same identity never subscribes to the same publisher twice.
    pub fn subscribe_user(&mut self, user_id: u64, publisher_id: u64)
        requires
            old(self).wf(),
            old(self).store.users@.contains_key(user_id),
        ensures
            final(self).wf(),
            final(self).store.users@.contains_key(user_id),
            final(self).store.users@[user_id].subscriptions@.contains(publisher_id),
            old(self).store.users@[user_id].subscriptions@.contains(publisher_id) ==> final(self).store.users@[user_id].subscriptions@ == old(self).store.users@[user_id].subscriptions@,
            !old(self).store.users@[user_id].subscriptions@.contains(publisher_id) ==> final(self).store.users@[user_id].subscriptions@ == old(self).store.users@[user_id].subscriptions@.push(publisher_id),
            final(self).store.users@[user_id].clients@ == old(self).store.users@[user_id].clients@,
            final(self).store.users@[user_id].id == user_id,
            forall|id2: u64|
                final(self).store.users@.contains_key(id2) == old(self).store.users@.contains_key(id2),
            forall|id2: u64|
                id2 != user_id && old(self).store.users@.contains_key(id2) ==> (#[trigger] final(self).store.users@[id2]) == old(self).store.users@[id2],
            final(self).store.inboxes@ == old(self).store.inboxes@,
            final(self).store.resumeable_clients_store == old(self).store.resumeable_clients_store,
            final(self).role_user_map == old(self).role_user_map,
    {
        let mut user = match self.store.users.take(user_id) {
            Option::Some(u) => u,
            Option::None => {
                proof {
                    assert(false);
                }
                GatewayUser { id: user_id, clients: TokenMap::new(), subscriptions: Vec::new() }
            },
        };
        if !vec_contains_u64(&user.subscriptions, publisher_id) {
            user.subscriptions.push(publisher_id);
            proof {
                let s = user.subscriptions@;
                assert(forall|m: int| 0 <= m < s.len() - 1 ==> s[m] == s.drop_last()[m]);
                assert(s[s.len() - 1] == publisher_id);
                assert(s.contains(publisher_id));
            }
        }
        self.store.users.insert(user_id, user);
        proof {
            assert(final(self).store.users@ =~= old(self).store.users@.insert(
                user_id,
                final(self).store.users@[user_id],
            ));
        }
    }

    /// Tears a client down: fires the caller's kill switch out of band,
    /// removes the client from its user, records a `DisconnectInfo` for
    /// resumption, and — when this was the user's last client — deregisters
    /// the user, dropping its inbox.
    pub fn die(&mut self, user_id: u64, session_token: &Vec<u8>)
        requires
            old(self).wf(),
            old(self).store.users@.contains_key(user_id),
            old(self).store.users@[user_id].clients@.contains_key(session_token@),
        ensures
            final(self).wf(),
            // The disconnect is recorded under the session token with the
            // sequence number the client had reached.
            // The disconnect is recorded in the resume store under the
            // session token, with the sequence number and inbox position
            // the client had reached; other entries stay as they were, at
            // most the store's oldest entry making room.
            crate::resume::recorded(
                old(self).store.resumeable_clients_store,
                final(self).store.resumeable_clients_store,
                session_token@,
                old(self).store.users@[user_id].clients@[session_token@].last_sequence,
                old(self).store.users@[user_id].clients@[session_token@].receiver.pos,
                user_id,
            ),
            final(self).role_user_map == old(self).role_user_map,
            // The client is gone from its user; the user itself survives
            // exactly when it still has another client.
            old(self).store.users@[user_id].clients@.remove(session_token@) == Map::<
                Seq<u8>,
                GatewayClient,
            >::empty() ==> final(self).store.users@ == old(self).store.users@.remove(user_id)
                && final(self).store.inboxes@ == old(self).store.inboxes@.remove(user_id),
            old(self).store.users@[user_id].clients@.remove(session_token@) != Map::<
                Seq<u8>,
                GatewayClient,
            >::empty() ==> final(self).store.users@.contains_key(user_id) && final(self).store.users@[user_id].clients@ == old(self).store.users@[user_id].clients@.remove(
                session_token@,
            ) && final(self).store.inboxes@ == old(self).store.inboxes@,
            forall|id2: u64|
                id2 != user_id ==> final(self).store.users@.contains_key(id2) == old(self).store.users@.contains_key(id2),
            forall|id2: u64|
                id2 != user_id && old(self).store.users@.contains_key(id2) ==> (#[trigger] final(self).store.users@[id2]) == old(self).store.users@[id2],
    {
        let mut user = match self.store.users.take(user_id) {
            Option::Some(u) => u,
            Option::None => {
                proof {
                    assert(false);
                }
                GatewayUser { id: user_id, clients: TokenMap::new(), subscriptions: Vec::new() }
            },
        };
        let client = match user.clients.take(session_token) {
            Option::Some(c) => c,
            Option::None => {
                proof {
                    assert(false);
                }
                GatewayClient {
                    session_token: Vec::new(),
                    last_sequence: 0,
                    receiver: RingReceiver { pos: 0 },
                }
            },
        };
        self.store.resumeable_clients_store.insert(
            copy_bytes(session_token),
            client.last_sequence,
            client.receiver.pos,
            user_id,
        );

        if user.clients.is_empty() {
            self.store.inboxes.remove(user_id);
            proof {
                assert(final(self).store.users@ =~= old(self).store.users@.remove(user_id));
            }
        } else {
            self.store.users.insert(user_id, user);
            proof {
                assert(final(self).store.users@ =~= old(self).store.users@.insert(
                    user_id,
                    final(self).store.users@[user_id],
                ));
            }
        }
    }
}

/// Represents a new successful connection to the gateway: the user is
/// already part of the registry and the client already sits in its user's
/// client map.
pub struct NewWebSocketConnection {
    pub user_id: u64,
    pub session_token: Vec<u8>,
}

/// Law: an identity has an inbox exactly when it has a user record.
pub proof fn lemma_inbox_iff_user(r: ConnectedUsers, id: u64)
    requires
        r.wf(),
    ensures
        r.store.inboxes@.contains_key(id) <==> r.store.users@.contains_key(id),
{
}

/// Law: every client sits in its parent user's map under its own session
/// token.
pub proof fn lemma_client_under_own_token(r: ConnectedUsers, id: u64, t: Seq<u8>)
    requires
        r.wf(),
        r.store.users@.contains_key(id),
        r.store.users@[id].clients@.contains_key(t),
    ensures
        r.store.users@[id].clients@[t].session_token@ == t,
{
}

} // verus!
