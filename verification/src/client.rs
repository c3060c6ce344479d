//! Per-connection client state.
//!
//! A session tracks the client's identity, its world attachment, the set
//! of chunk positions already sent to it, and a bounded count of chunk
//! frames in flight. A chunk enters `already_sent` before its compression
//! job is submitted and leaves it only when the client stops watching it,
//! so the same chunk is never queued twice within an attachment; the
//! in-flight count never passes the queue limit.

use vstd::prelude::*;

use crate::messages::{NetworkMessageType, ServerMessage};
use crate::positions::ChunkPosition;
use crate::strutil::string_eq;

verus! {

/// What a client reports about itself on connect.
#[derive(Clone, PartialEq, Debug)]
pub struct ClientInfo {
    pub login: String,
    pub version: String,
    pub architecture: String,
    pub rendering_device: String,
}

impl ClientInfo {
    pub fn new(login: String, version: String, architecture: String, rendering_device: String)
        -> (r: ClientInfo)
        ensures
            r == (ClientInfo { login, version, architecture, rendering_device }),
    {
        ClientInfo { login, version, architecture, rendering_device }
    }

    pub fn get_login(&self) -> (r: &String)
        ensures
            r == self.login,
    {
        &self.login
    }
}

/// A client's attachment to a world: the world's slug and the entity that
/// stands for the player there.
#[derive(Clone, PartialEq, Debug)]
pub struct WorldEntity {
    world_slug: String,
    entity_id: u64,
}

impl WorldEntity {
    pub fn new(world_slug: String, entity_id: u64) -> (r: WorldEntity)
        ensures
            r.spec_world_slug() == world_slug@,
            r.spec_entity_id() == entity_id,
    {
        WorldEntity { world_slug, entity_id }
    }

    pub closed spec fn spec_world_slug(self) -> Seq<char> {
        self.world_slug@
    }

    pub closed spec fn spec_entity_id(self) -> u64 {
        self.entity_id
    }

    pub fn get_world_slug(&self) -> (r: &String)
        ensures
            r@ == self.spec_world_slug(),
    {
        &self.world_slug
    }

    pub fn get_entity(&self) -> (r: u64)
        ensures
            r == self.spec_entity_id(),
    {
        self.entity_id
    }
}

/// Whether a session is exactly what a fresh registration produces:
/// known by id and address, not yet identified, attached nowhere,
/// nothing sent and nothing queued.
pub open spec fn is_fresh_session(
    c: ClientNetwork,
    client_id: u64,
    client_ip: Seq<char>,
    queue_limit: usize,
) -> bool {
    &&& c.client_id == client_id
    &&& c.client_ip@ == client_ip
    &&& c.connected
    &&& c.disconnect_reason is None
    &&& c.client_info is None
    &&& c.world_entity is None
    &&& c.already_sent@ == Seq::<ChunkPosition>::empty()
    &&& c.in_flight == 0
    &&& c.queue_limit == queue_limit
    &&& c.outbox@ == Seq::<(NetworkMessageType, ServerMessage)>::empty()
}

/// One connected client's session.
pub struct ClientNetwork {
    pub client_id: u64,
    pub client_ip: String,
    pub connected: bool,
    pub disconnect_reason: Option<String>,
    pub client_info: Option<ClientInfo>,
    pub world_entity: Option<WorldEntity>,
    pub already_sent: Vec<ChunkPosition>,
    pub in_flight: usize,
    pub queue_limit: usize,
    pub outbox: Vec<(NetworkMessageType, ServerMessage)>,
}

impl ClientNetwork {
    /// Validity: the in-flight count respects the limit and the sent set
    /// holds each position once.
    pub open spec fn wf(self) -> bool {
        &&& self.spec_in_flight() <= self.spec_queue_limit()
        &&& self.spec_already_sent().no_duplicates()
    }

    pub open spec fn spec_client_id(self) -> u64 {
        self.client_id
    }

    pub open spec fn spec_client_ip(self) -> Seq<char> {
        self.client_ip@
    }

    pub open spec fn spec_connected(self) -> bool {
        self.connected
    }

    pub open spec fn spec_disconnect_reason(self) -> Option<String> {
        self.disconnect_reason
    }

    pub open spec fn spec_client_info(self) -> Option<ClientInfo> {
        self.client_info
    }

    pub open spec fn spec_world_entity(self) -> Option<WorldEntity> {
        self.world_entity
    }

    pub open spec fn spec_already_sent(self) -> Seq<ChunkPosition> {
        self.already_sent@
    }

    /// Whether a chunk position was already queued for this client.
    pub open spec fn spec_sent_contains(self, p: ChunkPosition) -> bool {
        self.spec_already_sent().contains(p)
    }

    pub open spec fn spec_in_flight(self) -> int {
        self.in_flight as int
    }

    pub open spec fn spec_queue_limit(self) -> int {
        self.queue_limit as int
    }

    pub open spec fn spec_outbox(self) -> Seq<(NetworkMessageType, ServerMessage)> {
        self.outbox@
    }

    /// A fresh session for a connection: known by id and address, not yet
    /// identified, attached nowhere, nothing sent.
    pub fn new(client_id: u64, client_ip: String, queue_limit: usize) -> (r: ClientNetwork)
        ensures
            r.wf(),
            is_fresh_session(r, client_id, client_ip@, queue_limit),
            r.spec_client_id() == client_id,
            r.spec_client_ip() == client_ip@,
            r.spec_connected(),
            r.spec_client_info() is None,
            r.spec_world_entity() is None,
            r.spec_already_sent().len() == 0,
            r.spec_in_flight() == 0,
            r.spec_queue_limit() == queue_limit,
            r.spec_outbox().len() == 0,
    {
        ClientNetwork {
            client_id,
            client_ip,
            connected: true,
            disconnect_reason: None,
            client_info: None,
            world_entity: None,
            already_sent: Vec::new(),
            in_flight: 0,
            queue_limit,
            outbox: Vec::new(),
        }
    }

    pub fn get_client_id(&self) -> (r: u64)
        ensures
            r == self.spec_client_id(),
    {
        self.client_id
    }

    pub fn get_client_ip(&self) -> (r: &String)
        ensures
            r@ == self.spec_client_ip(),
    {
        &self.client_ip
    }

    pub fn is_connected(&self) -> (r: bool)
        ensures
            r == self.spec_connected(),
    {
        self.connected
    }

    pub fn get_client_info(&self) -> (r: &Option<ClientInfo>)
        ensures
            r == self.spec_client_info(),
    {
        &self.client_info
    }

    pub fn set_client_info(&mut self, info: ClientInfo)
        ensures
            *final(self) == (ClientNetwork { client_info: Some(info), ..*old(self) }),
    {
        self.client_info = Some(info);
    }

    /// Whether this session is identified by the given login.
    pub fn has_login(&self, login: &String) -> (r: bool)
        ensures
            r == match self.spec_client_info() {
                Some(info) => info.login@ == login@,
                None => false,
            },
    {
        match &self.client_info {
            Some(info) => string_eq(&info.login, login),
            None => false,
        }
    }

    pub fn get_world_entity(&self) -> (r: &Option<WorldEntity>)
        ensures
            r == self.spec_world_entity(),
    {
        &self.world_entity
    }

    pub fn set_world_entity(&mut self, world_entity: WorldEntity)
        ensures
            *final(self) == (ClientNetwork { world_entity: Some(world_entity), ..*old(self) }),
    {
        self.world_entity = Some(world_entity);
    }

    /// Detaches the session from its world and clears the sent set, so a
    /// later attachment streams chunks afresh.
    pub fn clear_world_entity(&mut self)
        requires
            old(self).wf(),
        ensures
            final(self).wf(),
            *final(self) == (ClientNetwork {
                world_entity: None,
                already_sent: final(self).already_sent,
                ..*old(self)
            }),
            final(self).spec_already_sent().len() == 0,
    {
        self.world_entity = None;
        self.already_sent.clear();
    }

    /// Whether the send queue is full: no more chunk frames may be queued.
    pub fn is_queue_limit(&self) -> (r: bool)
        ensures
            r == (self.spec_in_flight() >= self.spec_queue_limit()),
    {
        self.in_flight >= self.queue_limit
    }

    pub fn is_already_sended(&self, pos: &ChunkPosition) -> (r: bool)
        ensures
            r == self.spec_sent_contains(*pos),
    {
        let n = self.already_sent.len();
        let mut i: usize = 0;
        while i < n
            invariant
                n == self.spec_already_sent().len(),
                i <= n,
                forall|j: int| 0 <= j < i ==> self.spec_already_sent()[j] != *pos,
            decreases n - i,
        {
            if self.already_sent[i].x == pos.x && self.already_sent[i].z == pos.z {
                return true;
            }
            i = i + 1;
        }
        false
    }

    /// Marks a chunk as queued for sending: it joins the sent set and
    /// takes one in-flight slot. Called before the compression job is
    /// submitted, so the position cannot be picked again.
    pub fn mark_chunk_sending(&mut self, pos: &ChunkPosition)
        requires
            old(self).wf(),
            old(self).spec_in_flight() < old(self).spec_queue_limit(),
            !old(self).spec_sent_contains(*pos),
        ensures
            final(self).wf(),
            *final(self) == (ClientNetwork {
                already_sent: final(self).already_sent,
                in_flight: final(self).in_flight,
                ..*old(self)
            }),
            final(self).spec_already_sent() == old(self).spec_already_sent().push(*pos),
            final(self).spec_in_flight() == old(self).spec_in_flight() + 1,
    {
        self.already_sent.push(*pos);
        self.in_flight = self.in_flight + 1;
        proof {
            let s = old(self).spec_already_sent();
            let t = self.spec_already_sent();
            assert forall|i: int, j: int|
                0 <= i < t.len() && 0 <= j < t.len() && i != j implies t[i] != t[j] by {
                if i < s.len() && j < s.len() {
                    assert(s[i] != s[j]);
                } else if i == s.len() {
                    assert(t[i] == *pos && t[j] == s[j]);
                } else {
                    assert(t[j] == *pos && t[i] == s[i]);
                }
            }
        }
    }

    /// Records chunk receipts: each acknowledged position frees one
    /// in-flight slot (never below zero); the sent set is untouched.
    pub fn mark_chunks_as_received(&mut self, chunk_positions: &Vec<ChunkPosition>)
        requires
            old(self).wf(),
        ensures
            final(self).wf(),
            *final(self) == (ClientNetwork { in_flight: final(self).in_flight, ..*old(self) }),
            final(self).spec_in_flight() == if old(self).spec_in_flight() >= chunk_positions@.len() {
                old(self).spec_in_flight() - chunk_positions@.len()
            } else {
                0
            },
    {
        let n = chunk_positions.len();
        if self.in_flight >= n {
            self.in_flight = self.in_flight - n;
        } else {
            self.in_flight = 0;
        }
    }

    /// Forgets chunk positions the client no longer watches, so they can
    /// be sent again if re-watched.
    pub fn forget_chunks(&mut self, chunk_positions: &Vec<ChunkPosition>)
        requires
            old(self).wf(),
        ensures
            final(self).wf(),
            *final(self) == (ClientNetwork {
                already_sent: final(self).already_sent,
                ..*old(self)
            }),
            forall|p: ChunkPosition|
                final(self).spec_sent_contains(p) == (old(self).spec_sent_contains(p)
                    && !chunk_positions@.contains(p)),
    {
        let mut kept: Vec<ChunkPosition> = Vec::new();
        let n = self.already_sent.len();
        let mut i: usize = 0;
        while i < n
            invariant
                old(self).wf(),
                n == old(self).spec_already_sent().len(),
                *self == *old(self),
                i <= n,
                forall|p: ChunkPosition|
                    kept@.contains(p) == (old(self).spec_already_sent().take(i as int).contains(p)
                        && !chunk_positions@.contains(p)),
                kept@.no_duplicates(),
            decreases n - i,
        {
            let p = self.already_sent[i];
            let drop_it = contains_position(chunk_positions, &p);
            proof {
                broadcast use vstd::seq_lib::lemma_seq_contains_after_push;

                let sent = old(self).spec_already_sent();
                let taken = sent.take(i as int);
                assert(taken.push(p) =~= sent.take(i as int + 1));
                assert(!taken.contains(p)) by {
                    if taken.contains(p) {
                        let k = choose|k: int| 0 <= k < taken.len() && taken[k] == p;
                        assert(sent[k] == p && sent[i as int] == p);
                        assert(sent[k] != sent[i as int]);
                    }
                };
                assert(!kept@.contains(p));
                if !drop_it {
                    let t = kept@.push(p);
                    assert forall|a: int, b: int|
                        0 <= a < t.len() && 0 <= b < t.len() && a != b implies t[a] != t[b] by {
                        if a < kept@.len() && b < kept@.len() {
                            assert(kept@[a] != kept@[b]);
                        } else if a == kept@.len() {
                            assert(t[a] == p && t[b] == kept@[b]);
                        } else {
                            assert(t[b] == p && t[a] == kept@[a]);
                        }
                    }
                }
            }
            if !drop_it {
                kept.push(p);
            }
            i = i + 1;
        }
        proof {
            assert(old(self).spec_already_sent().take(n as int) =~= old(
                self,
            ).spec_already_sent());
        }
        self.already_sent = kept;
    }

    /// Hands a typed envelope to the transport under a reliability class:
    /// it joins this session's outbound queue in order.
    pub fn send_message(&mut self, message_type: NetworkMessageType, message: ServerMessage)
        ensures
            *final(self) == (ClientNetwork { outbox: final(self).outbox, ..*old(self) }),
            final(self).spec_outbox() == old(self).spec_outbox().push((message_type, message)),
    {
        self.outbox.push((message_type, message));
    }

    /// Greets a fresh connection.
    pub fn send_allow_connection(&mut self)
        ensures
            *final(self) == (ClientNetwork { outbox: final(self).outbox, ..*old(self) }),
            final(self).spec_outbox() == old(self).spec_outbox().push(
                (NetworkMessageType::ReliableOrdered, ServerMessage::AllowConnection),
            ),
    {
        self.send_message(NetworkMessageType::ReliableOrdered, ServerMessage::AllowConnection);
    }

    /// Tells the client to drop chunks it no longer watches, and forgets
    /// them here so they can be re-sent if re-watched.
    pub fn send_chunks_to_unload(&mut self, world_slug: String, chunks: Vec<ChunkPosition>)
        requires
            old(self).wf(),
        ensures
            final(self).wf(),
            *final(self) == (ClientNetwork {
                outbox: final(self).outbox,
                already_sent: final(self).already_sent,
                ..*old(self)
            }),
            final(self).spec_outbox() == old(self).spec_outbox().push(
                (
                    NetworkMessageType::ReliableOrdered,
                    ServerMessage::UnloadChunks { world_slug, chunks },
                ),
            ),
            forall|p: ChunkPosition|
                final(self).spec_sent_contains(p) == (old(self).spec_sent_contains(p)
                    && !chunks@.contains(p)),
    {
        self.forget_chunks(&chunks);
        self.send_message(
            NetworkMessageType::ReliableOrdered,
            ServerMessage::UnloadChunks { world_slug, chunks },
        );
    }

    /// Closes the connection, with an optional human-readable reason.
    pub fn disconnect(&mut self, reason: Option<String>)
        ensures
            *final(self) == (ClientNetwork {
                connected: false,
                disconnect_reason: final(self).disconnect_reason,
                ..*old(self)
            }),
            !final(self).spec_connected(),
            final(self).spec_disconnect_reason() == reason,
    {
        self.connected = false;
        self.disconnect_reason = reason;
    }

    pub fn get_disconnect_reason(&self) -> (r: &Option<String>)
        ensures
            r == self.spec_disconnect_reason(),
    {
        &self.disconnect_reason
    }

    /// Reads and clears the outbound queue, in send order.
    pub fn drain_outbox(&mut self) -> (r: Vec<(NetworkMessageType, ServerMessage)>)
        ensures
            *final(self) == (ClientNetwork { outbox: final(self).outbox, ..*old(self) }),
            r@ == old(self).spec_outbox(),
            final(self).spec_outbox().len() == 0,
    {
        let mut out: Vec<(NetworkMessageType, ServerMessage)> = Vec::new();
        std::mem::swap(&mut out, &mut self.outbox);
        out
    }
}

/// Whether a list of chunk positions holds the given one.
pub fn contains_position(list: &Vec<ChunkPosition>, pos: &ChunkPosition) -> (r: bool)
    ensures
        r == list@.contains(*pos),
{
    let n = list.len();
    let mut i: usize = 0;
    while i < n
        invariant
            n == list@.len(),
            i <= n,
            forall|j: int| 0 <= j < i ==> list@[j] != *pos,
        decreases n - i,
    {
        if list[i].x == pos.x && list[i].z == pos.z {
            return true;
        }
        i = i + 1;
    }
    false
}

} // verus!
