//! The resumable-session store: disconnect bookkeeping keyed by session
//! token, bounded in size by evicting the oldest entry.

use vstd::prelude::*;

use crate::events::copy_bytes;
use crate::idmap::tok_entries;
use crate::idmap::TokenMap;

verus! {

/// How many disconnected sessions are retained for resumption.
pub const RESUME_STORE_CAPACITY: usize = 1024;

/// What is remembered about one disconnected client.
pub struct DisconnectInfo {
    /// Session token that was used for this connection.
    pub session_token: Vec<u8>,
    /// The last sequence number delivered before the disconnect.
    pub disconnected_at_sequence: u64,
    /// The client's position in its user's inbox ring at the disconnect,
    /// from which missed events are replayed on resume.
    pub inbox_position: u64,
    /// The identity the disconnected client belonged to.
    pub user_id: u64,
}

/// Mapping from session token to [`DisconnectInfo`], retaining at most
/// `capacity` entries; when full, the oldest entry is dropped.
pub struct ResumableClientsStore {
    pub entries: TokenMap<DisconnectInfo>,
    pub capacity: usize,
}

/// The token of the store's oldest entry, the only one an insert may evict.
pub open spec fn oldest_token(st: ResumableClientsStore) -> Seq<u8> {
    tok_entries(st.entries.entries@)[0].0
}

/// `post` is `pre` with one disconnect recorded under `token`: the entry is
/// present with the given sequence number and inbox position, every other
/// retained entry was already present unchanged, and at most the oldest
/// entry was evicted — only when the store was full and the token new.
pub open spec fn recorded(
    pre: ResumableClientsStore,
    post: ResumableClientsStore,
    token: Seq<u8>,
    seq: u64,
    pos: u64,
    user: u64,
) -> bool {
    &&& post.capacity == pre.capacity
    &&& post.entries@.contains_key(token)
    &&& post.entries@[token].session_token@ == token
    &&& post.entries@[token].disconnected_at_sequence == seq
    &&& post.entries@[token].inbox_position == pos
    &&& post.entries@[token].user_id == user
    &&& forall|k: Seq<u8>|
        post.entries@.contains_key(k) && k != token ==> pre.entries@.contains_key(k) && (
        #[trigger] post.entries@[k]) == pre.entries@[k]
    &&& forall|k: Seq<u8>|
        pre.entries@.contains_key(k) && k != oldest_token(pre) ==> post.entries@.contains_key(k)
    &&& (pre.entries.spec_len() < pre.capacity || pre.entries@.contains_key(token) ==> (forall|
        k: Seq<u8>,
    |
        pre.entries@.contains_key(k) ==> post.entries@.contains_key(k)))
}

impl ResumableClientsStore {
    /// Well-formed: bounded, and every entry's token matches its key.
    pub open spec fn wf(&self) -> bool {
        &&& self.capacity >= 1
        &&& self.entries.wf()
        &&& self.entries.spec_len() <= self.capacity
        &&& forall|k: Seq<u8>|
            self.entries@.contains_key(k) ==> (#[trigger] self.entries@[k]).session_token@ == k
    }

    /// An empty store with the given capacity.
    pub fn new(capacity: usize) -> (r: ResumableClientsStore)
        requires
            capacity >= 1,
        ensures
            r.wf(),
            r.entries@ == Map::<Seq<u8>, DisconnectInfo>::empty(),
            r.capacity == capacity,
    {
        ResumableClientsStore { entries: TokenMap::new(), capacity }
    }

    /// Records a disconnect under its session token, evicting the oldest
    /// entry if the store is full. Every retained entry other than the new
    /// one was already present, unchanged; at most the oldest entry is
    /// dropped, and only when the store was full and the token new.
    pub fn insert(
        &mut self,
        session_token: Vec<u8>,
        disconnected_at_sequence: u64,
        inbox_position: u64,
        user_id: u64,
    )
        requires
            old(self).wf(),
        ensures
            final(self).wf(),
            recorded(
                *old(self),
                *final(self),
                session_token@,
                disconnected_at_sequence,
                inbox_position,
                user_id,
            ),
    {
        if self.entries.len() == self.capacity && !self.entries.contains_key(&session_token) {
            self.entries.remove_oldest();
        }
        let token_copy = copy_bytes(&session_token);
        self.entries.insert(session_token, DisconnectInfo {
            session_token: token_copy,
            disconnected_at_sequence,
            inbox_position,
            user_id,
        });
    }

    /// The inbox-ring position recorded for a token, from which the missed
    /// events are replayed.
    pub fn lookup_position(&self, session_token: &Vec<u8>) -> (r: Option<u64>)
        requires
            self.wf(),
        ensures
            match r {
                Option::Some(pos) => self.entries@.contains_key(session_token@)
                    && self.entries@[session_token@].inbox_position == pos,
                Option::None => !self.entries@.contains_key(session_token@),
            },
    {
        match self.entries.get(session_token) {
            Option::Some(info) => Option::Some(info.inbox_position),
            Option::None => Option::None,
        }
    }

    /// The identity recorded for a token: whose inbox the resumed session
    /// rejoins.
    pub fn lookup_user(&self, session_token: &Vec<u8>) -> (r: Option<u64>)
        requires
            self.wf(),
        ensures
            match r {
                Option::Some(user) => self.entries@.contains_key(session_token@)
                    && self.entries@[session_token@].user_id == user,
                Option::None => !self.entries@.contains_key(session_token@),
            },
    {
        match self.entries.get(session_token) {
            Option::Some(info) => Option::Some(info.user_id),
            Option::None => Option::None,
        }
    }

    /// The sequence number recorded for a token, if the session can be
    /// resumed.
    pub fn lookup(&self, session_token: &Vec<u8>) -> (r: Option<u64>)
        requires
            self.wf(),
        ensures
            match r {
                Option::Some(seq) => self.entries@.contains_key(session_token@)
                    && self.entries@[session_token@].disconnected_at_sequence == seq,
                Option::None => !self.entries@.contains_key(session_token@),
            },
    {
        match self.entries.get(session_token) {
            Option::Some(info) => Option::Some(info.disconnected_at_sequence),
            Option::None => Option::None,
        }
    }

    /// Forgets a token, if present.
    pub fn remove(&mut self, session_token: &Vec<u8>)
        requires
            old(self).wf(),
        ensures
            final(self).wf(),
            final(self).capacity == old(self).capacity,
            final(self).entries@ == old(self).entries@.remove(session_token@),
    {
        self.entries.remove(session_token);
    }
}

} // verus!
