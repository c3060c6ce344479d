//! The per-tick event handlers: the network drain that turns transport
//! messages into typed events, and the handlers that run after it in a
//! fixed order within the same tick.

use vstd::prelude::*;

use crate::archive::{spec_parts_count, ResourcesArchive, ARCHIVE_CHUNK_SIZE};
use crate::channel::EventChannel;
use crate::client::{ClientInfo, ClientNetwork, WorldEntity};
use crate::clients::{clone_string, ClientsContainer};
use crate::events::{
    EditBlockEvent, PlayerConnectionEvent, PlayerConnectionInfoEvent, PlayerDisconnectEvent,
    PlayerMediaLoadedEvent, PlayerMoveEvent, PlayerSettingsLoadedEvent, ResourcesHasCacheEvent,
};
use crate::messages::{ClientMessage, NetworkMessageType, ResourceScheme, ServerMessage};
use crate::scheduler::TpsCounter;
use crate::sender::final_like_outbox;
use crate::settings::ServerSettings;
use crate::world::WorldsManager;
use crate::{CHUNKS_DISTANCE, SEND_CHUNK_QUEUE_LIMIT};

verus! {

broadcast use vstd::seq_lib::lemma_seq_contains_after_push;

/// One channel per event kind, drained in a fixed order each tick.
pub struct NetworkChannels {
    pub connection: EventChannel<PlayerConnectionEvent>,
    pub disconnect: EventChannel<PlayerDisconnectEvent>,
    pub connection_info: EventChannel<PlayerConnectionInfoEvent>,
    pub resources_has_cache: EventChannel<ResourcesHasCacheEvent>,
    pub media_loaded: EventChannel<PlayerMediaLoadedEvent>,
    pub settings_loaded: EventChannel<PlayerSettingsLoadedEvent>,
    pub player_move: EventChannel<PlayerMoveEvent>,
    pub edit_block: EventChannel<EditBlockEvent>,
    pub console_input: EventChannel<(u64, String)>,
}

impl NetworkChannels {
    /// All channels empty.
    pub fn new() -> (r: NetworkChannels)
        ensures
            r.connection@.len() == 0,
            r.disconnect@.len() == 0,
            r.connection_info@.len() == 0,
            r.resources_has_cache@.len() == 0,
            r.media_loaded@.len() == 0,
            r.settings_loaded@.len() == 0,
            r.player_move@.len() == 0,
            r.edit_block@.len() == 0,
            r.console_input@.len() == 0,
    {
        NetworkChannels {
            connection: EventChannel::new(),
            disconnect: EventChannel::new(),
            connection_info: EventChannel::new(),
            resources_has_cache: EventChannel::new(),
            media_loaded: EventChannel::new(),
            settings_loaded: EventChannel::new(),
            player_move: EventChannel::new(),
            edit_block: EventChannel::new(),
            console_input: EventChannel::new(),
        }
    }
}

/// A connect or disconnect notice from the transport.
pub enum ConnectionMessage {
    Connect { client_id: u64, ip: String },
    Disconnect { client_id: u64, reason: String },
}

/// Maps one decoded client message to exactly one typed event on the
/// channel of its kind — except chunk receipts, which settle the
/// session's in-flight count in place, and console input, which joins
/// the command queue.
pub fn handle_client_message(
    clients: &mut ClientsContainer,
    channels: &mut NetworkChannels,
    client_id: u64,
    message: ClientMessage,
)
    requires
        old(clients).wf(),
    ensures
        final(clients).wf(),
        message matches ClientMessage::ConnectionInfo {
            login,
            version,
            architecture,
            rendering_device,
        } ==> *final(clients) == *old(clients) && *final(channels) == (NetworkChannels {
            connection_info: final(channels).connection_info,
            ..*old(channels)
        }) && final(channels).connection_info@ == old(channels).connection_info@.push(
            (PlayerConnectionInfoEvent { client_id, login, version, architecture, rendering_device }),
        ),
        message matches ClientMessage::ConsoleInput { command } ==> *final(clients) == *old(
            clients,
        ) && *final(channels) == (NetworkChannels {
            console_input: final(channels).console_input,
            ..*old(channels)
        }) && final(channels).console_input@ == old(channels).console_input@.push(
            ((client_id, command)),
        ),
        message matches ClientMessage::PlayerMove { position, rotation, animation_state }
            ==> *final(clients) == *old(clients) && *final(channels) == (NetworkChannels {
            player_move: final(channels).player_move,
            ..*old(channels)
        }) && final(channels).player_move@ == old(channels).player_move@.push(
            (PlayerMoveEvent { client_id, position, rotation, animation_state }),
        ),
        message matches ClientMessage::ResourcesHasCache { exists } ==> *final(clients) == *old(
            clients,
        ) && *final(channels) == (NetworkChannels {
            resources_has_cache: final(channels).resources_has_cache,
            ..*old(channels)
        }) && final(channels).resources_has_cache@ == old(channels).resources_has_cache@.push(
            (ResourcesHasCacheEvent { client_id, exists }),
        ),
        message matches ClientMessage::ResourcesLoaded { last_index } ==> *final(clients) == *old(
            clients,
        ) && *final(channels) == (NetworkChannels {
            media_loaded: final(channels).media_loaded,
            ..*old(channels)
        }) && final(channels).media_loaded@ == old(channels).media_loaded@.push(
            (PlayerMediaLoadedEvent { client_id, last_index: Some(last_index) }),
        ),
        message matches ClientMessage::SettingsLoaded ==> *final(clients) == *old(clients)
            && *final(channels) == (NetworkChannels {
            settings_loaded: final(channels).settings_loaded,
            ..*old(channels)
        }) && final(channels).settings_loaded@ == old(channels).settings_loaded@.push(
            (PlayerSettingsLoadedEvent { client_id }),
        ),
        message matches ClientMessage::EditBlockRequest { world_slug, position, new_block_info }
            ==> *final(clients) == *old(clients) && *final(channels) == (NetworkChannels {
            edit_block: final(channels).edit_block,
            ..*old(channels)
        }) && final(channels).edit_block@ == old(channels).edit_block@.push(
            (EditBlockEvent { client_id, world_slug, position, new_block_info }),
        ),
        message matches ClientMessage::ChunkReceived { chunk_positions } ==> *final(channels)
            == *old(channels) && final(clients).spec_players().len() == old(
            clients,
        ).spec_players().len() && forall|i: int|
            0 <= i < final(clients).spec_players().len() ==> {
                let c_new = #[trigger] final(clients).spec_players()[i];
                let c_old = old(clients).spec_players()[i];
                if c_old.spec_client_id() == client_id {
                    c_new == (ClientNetwork { in_flight: c_new.in_flight, ..c_old })
                        && c_new.spec_in_flight() == if c_old.spec_in_flight()
                        >= chunk_positions@.len() {
                        c_old.spec_in_flight() - chunk_positions@.len()
                    } else {
                        0
                    }
                } else {
                    c_new == c_old
                }
            },
{
    match message {
        ClientMessage::ConnectionInfo { login, version, architecture, rendering_device } => {
            channels.connection_info.emit_event(
                PlayerConnectionInfoEvent {
                    client_id,
                    login,
                    version,
                    architecture,
                    rendering_device,
                },
            );
        },
        ClientMessage::ConsoleInput { command } => {
            channels.console_input.emit_event((client_id, command));
        },
        ClientMessage::PlayerMove { position, rotation, animation_state } => {
            channels.player_move.emit_event(
                PlayerMoveEvent { client_id, position, rotation, animation_state },
            );
        },
        ClientMessage::ResourcesHasCache { exists } => {
            channels.resources_has_cache.emit_event(
                ResourcesHasCacheEvent { client_id, exists },
            );
        },
        ClientMessage::ResourcesLoaded { last_index } => {
            channels.media_loaded.emit_event(
                PlayerMediaLoadedEvent { client_id, last_index: Some(last_index) },
            );
        },
        ClientMessage::SettingsLoaded => {
            channels.settings_loaded.emit_event(PlayerSettingsLoadedEvent { client_id });
        },
        ClientMessage::EditBlockRequest { world_slug, position, new_block_info } => {
            channels.edit_block.emit_event(
                EditBlockEvent { client_id, world_slug, position, new_block_info },
            );
        },
        ClientMessage::ChunkReceived { chunk_positions } => {
            match clients.find_index(client_id) {
                Some(i) => {
                    let ghost before = *clients;
                    let session = clients.index_mut(i);
                    session.mark_chunks_as_received(&chunk_positions);
                    proof {
                        lemma_session_update_wf(before, *clients, i as int);
                        assert forall|j: int|
                            0 <= j < clients.spec_players().len() implies (j != i
                            ==> #[trigger] clients.spec_players()[j] == old(
                            clients,
                        ).spec_players()[j]) by {}
                    }
                },
                None => {},
            }
        },
    }
}

/// The connection events a tick's notices produce, in order.
pub open spec fn connect_events(notices: Seq<ConnectionMessage>) -> Seq<PlayerConnectionEvent>
    decreases notices.len(),
{
    if notices.len() == 0 {
        Seq::<PlayerConnectionEvent>::empty()
    } else {
        connect_events(notices.drop_last()) + (match notices.last() {
            ConnectionMessage::Connect { client_id, ip } => seq![
                PlayerConnectionEvent { client_id },
            ],
            ConnectionMessage::Disconnect { .. } => Seq::<PlayerConnectionEvent>::empty(),
        })
    }
}

/// The disconnect events a tick's notices produce, in order.
pub open spec fn disconnect_events(notices: Seq<ConnectionMessage>) -> Seq<PlayerDisconnectEvent>
    decreases notices.len(),
{
    if notices.len() == 0 {
        Seq::<PlayerDisconnectEvent>::empty()
    } else {
        disconnect_events(notices.drop_last()) + (match notices.last() {
            ConnectionMessage::Disconnect { client_id, reason } => seq![
                PlayerDisconnectEvent { client_id, reason },
            ],
            ConnectionMessage::Connect { .. } => Seq::<PlayerDisconnectEvent>::empty(),
        })
    }
}

/// Whether a notice connects this client id.
pub open spec fn notice_connects(n: ConnectionMessage, client_id: u64) -> bool {
    n matches ConnectionMessage::Connect { client_id: c, ip } && c == client_id
}

/// Whether some notice connects this client id.
pub open spec fn has_connect_for(notices: Seq<ConnectionMessage>, client_id: u64) -> bool {
    exists|k: int| 0 <= k < notices.len() && notice_connects(#[trigger] notices[k], client_id)
}

/// The address carried by the last notice that connects this client id.
pub open spec fn last_connect_ip(notices: Seq<ConnectionMessage>, client_id: u64) -> Seq<char>
    decreases notices.len(),
{
    if notices.len() == 0 {
        Seq::<char>::empty()
    } else {
        match notices.last() {
            ConnectionMessage::Connect { client_id: c, ip } => if c == client_id {
                ip@
            } else {
                last_connect_ip(notices.drop_last(), client_id)
            },
            ConnectionMessage::Disconnect { .. } => last_connect_ip(
                notices.drop_last(),
                client_id,
            ),
        }
    }
}

/// Whether some session in the list has this id.
pub open spec fn players_have_id(p: Seq<ClientNetwork>, client_id: u64) -> bool {
    exists|i: int| 0 <= i < p.len() && (#[trigger] p[i]).spec_client_id() == client_id
}

/// What draining the connection notices leaves of the registry: every
/// session keeps its index and id; one named by a connect notice is
/// replaced by a fresh session under the last address that connected it;
/// ids of new connect notices are appended as fresh sessions; every
/// connect notice's id ends registered. No disconnect notice removes a
/// session here.
pub open spec fn connects_registered(
    p0: Seq<ClientNetwork>,
    notices: Seq<ConnectionMessage>,
    p1: Seq<ClientNetwork>,
) -> bool {
    &&& p0.len() <= p1.len()
    &&& forall|i: int|
        0 <= i < p0.len() ==> (#[trigger] p1[i]).spec_client_id() == p0[i].spec_client_id()
    &&& forall|i: int|
        0 <= i < p0.len() ==> (if has_connect_for(
            notices,
            (#[trigger] p0[i]).spec_client_id(),
        ) {
            crate::client::is_fresh_session(
                p1[i],
                p0[i].spec_client_id(),
                last_connect_ip(notices, p0[i].spec_client_id()),
                SEND_CHUNK_QUEUE_LIMIT,
            )
        } else {
            p1[i] == p0[i]
        })
    &&& forall|i: int|
        p0.len() <= i < p1.len() ==> {
            let id = (#[trigger] p1[i]).spec_client_id();
            &&& has_connect_for(notices, id)
            &&& !players_have_id(p0, id)
            &&& crate::client::is_fresh_session(
                p1[i],
                id,
                last_connect_ip(notices, id),
                SEND_CHUNK_QUEUE_LIMIT,
            )
        }
    &&& forall|id: u64| #[trigger] has_connect_for(notices, id) ==> players_have_id(p1, id)
}

/// The identification events the drained messages produce, in order: one
/// per connection-info message of a registered client.
pub open spec fn info_events(mid: ClientsContainer, msgs: Seq<(u64, ClientMessage)>) -> Seq<
    PlayerConnectionInfoEvent,
>
    decreases msgs.len(),
{
    if msgs.len() == 0 {
        Seq::<PlayerConnectionInfoEvent>::empty()
    } else {
        info_events(mid, msgs.drop_last()) + (match msgs.last().1 {
            ClientMessage::ConnectionInfo {
                login,
                version,
                architecture,
                rendering_device,
            } => if mid.spec_has_client(msgs.last().0) {
                seq![
                    PlayerConnectionInfoEvent {
                        client_id: msgs.last().0,
                        login,
                        version,
                        architecture,
                        rendering_device,
                    },
                ]
            } else {
                Seq::<PlayerConnectionInfoEvent>::empty()
            },
            _ => Seq::<PlayerConnectionInfoEvent>::empty(),
        })
    }
}

/// The console lines the drained messages produce, in order.
pub open spec fn console_events(mid: ClientsContainer, msgs: Seq<(u64, ClientMessage)>) -> Seq<
    (u64, String),
>
    decreases msgs.len(),
{
    if msgs.len() == 0 {
        Seq::<(u64, String)>::empty()
    } else {
        console_events(mid, msgs.drop_last()) + (match msgs.last().1 {
            ClientMessage::ConsoleInput { command } => if mid.spec_has_client(msgs.last().0) {
                seq![(msgs.last().0, command)]
            } else {
                Seq::<(u64, String)>::empty()
            },
            _ => Seq::<(u64, String)>::empty(),
        })
    }
}

/// The movement events the drained messages produce, in order.
pub open spec fn move_events(mid: ClientsContainer, msgs: Seq<(u64, ClientMessage)>) -> Seq<
    PlayerMoveEvent,
>
    decreases msgs.len(),
{
    if msgs.len() == 0 {
        Seq::<PlayerMoveEvent>::empty()
    } else {
        move_events(mid, msgs.drop_last()) + (match msgs.last().1 {
            ClientMessage::PlayerMove { position, rotation, animation_state } => if mid.spec_has_client(
                msgs.last().0,
            ) {
                seq![
                    PlayerMoveEvent {
                        client_id: msgs.last().0,
                        position,
                        rotation,
                        animation_state,
                    },
                ]
            } else {
                Seq::<PlayerMoveEvent>::empty()
            },
            _ => Seq::<PlayerMoveEvent>::empty(),
        })
    }
}

/// The cache answers the drained messages produce, in order.
pub open spec fn cache_events(mid: ClientsContainer, msgs: Seq<(u64, ClientMessage)>) -> Seq<
    ResourcesHasCacheEvent,
>
    decreases msgs.len(),
{
    if msgs.len() == 0 {
        Seq::<ResourcesHasCacheEvent>::empty()
    } else {
        cache_events(mid, msgs.drop_last()) + (match msgs.last().1 {
            ClientMessage::ResourcesHasCache { exists } => if mid.spec_has_client(
                msgs.last().0,
            ) {
                seq![ResourcesHasCacheEvent { client_id: msgs.last().0, exists }]
            } else {
                Seq::<ResourcesHasCacheEvent>::empty()
            },
            _ => Seq::<ResourcesHasCacheEvent>::empty(),
        })
    }
}

/// The media-progress events the drained messages produce, in order.
pub open spec fn media_events(mid: ClientsContainer, msgs: Seq<(u64, ClientMessage)>) -> Seq<
    PlayerMediaLoadedEvent,
>
    decreases msgs.len(),
{
    if msgs.len() == 0 {
        Seq::<PlayerMediaLoadedEvent>::empty()
    } else {
        media_events(mid, msgs.drop_last()) + (match msgs.last().1 {
            ClientMessage::ResourcesLoaded { last_index } => if mid.spec_has_client(
                msgs.last().0,
            ) {
                seq![
                    PlayerMediaLoadedEvent {
                        client_id: msgs.last().0,
                        last_index: Some(last_index),
                    },
                ]
            } else {
                Seq::<PlayerMediaLoadedEvent>::empty()
            },
            _ => Seq::<PlayerMediaLoadedEvent>::empty(),
        })
    }
}

/// The settings-loaded events the drained messages produce, in order.
pub open spec fn settings_events(mid: ClientsContainer, msgs: Seq<(u64, ClientMessage)>) -> Seq<
    PlayerSettingsLoadedEvent,
>
    decreases msgs.len(),
{
    if msgs.len() == 0 {
        Seq::<PlayerSettingsLoadedEvent>::empty()
    } else {
        settings_events(mid, msgs.drop_last()) + (match msgs.last().1 {
            ClientMessage::SettingsLoaded => if mid.spec_has_client(msgs.last().0) {
                seq![PlayerSettingsLoadedEvent { client_id: msgs.last().0 }]
            } else {
                Seq::<PlayerSettingsLoadedEvent>::empty()
            },
            _ => Seq::<PlayerSettingsLoadedEvent>::empty(),
        })
    }
}

/// The edit-block events the drained messages produce, in order.
pub open spec fn edit_events(mid: ClientsContainer, msgs: Seq<(u64, ClientMessage)>) -> Seq<
    EditBlockEvent,
>
    decreases msgs.len(),
{
    if msgs.len() == 0 {
        Seq::<EditBlockEvent>::empty()
    } else {
        edit_events(mid, msgs.drop_last()) + (match msgs.last().1 {
            ClientMessage::EditBlockRequest { world_slug, position, new_block_info } => if mid.spec_has_client(
                msgs.last().0,
            ) {
                seq![
                    EditBlockEvent {
                        client_id: msgs.last().0,
                        world_slug,
                        position,
                        new_block_info,
                    },
                ]
            } else {
                Seq::<EditBlockEvent>::empty()
            },
            _ => Seq::<EditBlockEvent>::empty(),
        })
    }
}

/// A session's in-flight count after the drained messages: each chunk
/// receipt of that registered client frees its positions' slots, never
/// below zero; no message emits an event for it.
pub open spec fn settled_in_flight(
    mid: ClientsContainer,
    msgs: Seq<(u64, ClientMessage)>,
    client_id: u64,
    in0: int,
) -> int
    decreases msgs.len(),
{
    if msgs.len() == 0 {
        in0
    } else {
        let prev = settled_in_flight(mid, msgs.drop_last(), client_id, in0);
        match msgs.last().1 {
            ClientMessage::ChunkReceived { chunk_positions } => if msgs.last().0 == client_id
                && mid.spec_has_client(client_id) {
                if prev >= chunk_positions@.len() {
                    prev - chunk_positions@.len()
                } else {
                    0
                }
            } else {
                prev
            },
            _ => prev,
        }
    }
}

/// Drains the transport. Connection notices run first: each connect
/// notice registers a fresh session (replacing any prior one under the
/// same id) before its connection event is emitted, and each disconnect
/// notice emits its event without removing the session. Then every
/// decoded message of a registered client is mapped to exactly one typed
/// event on the channel of its kind — except chunk receipts, which
/// settle the session's in-flight count in place and emit nothing. The
/// registry as it stands between the two phases is returned for the
/// caller's reasoning.
pub fn drain_network_system(
    clients: &mut ClientsContainer,
    channels: &mut NetworkChannels,
    connections: Vec<ConnectionMessage>,
    messages: Vec<(u64, ClientMessage)>,
) -> (mid: Ghost<ClientsContainer>)
    requires
        old(clients).wf(),
    ensures
        final(clients).wf(),
        mid@.wf(),
        connects_registered(
            old(clients).spec_players(),
            connections@,
            mid@.spec_players(),
        ),
        final(channels).connection@ == old(channels).connection@ + connect_events(connections@),
        final(channels).disconnect@ == old(channels).disconnect@ + disconnect_events(
            connections@,
        ),
        final(channels).connection_info@ == old(channels).connection_info@ + info_events(
            mid@,
            messages@,
        ),
        final(channels).console_input@ == old(channels).console_input@ + console_events(
            mid@,
            messages@,
        ),
        final(channels).player_move@ == old(channels).player_move@ + move_events(
            mid@,
            messages@,
        ),
        final(channels).resources_has_cache@ == old(channels).resources_has_cache@ + cache_events(
            mid@,
            messages@,
        ),
        final(channels).media_loaded@ == old(channels).media_loaded@ + media_events(
            mid@,
            messages@,
        ),
        final(channels).settings_loaded@ == old(channels).settings_loaded@ + settings_events(
            mid@,
            messages@,
        ),
        final(channels).edit_block@ == old(channels).edit_block@ + edit_events(mid@, messages@),
        final(clients).spec_players().len() == mid@.spec_players().len(),
        forall|i: int|
            0 <= i < mid@.spec_players().len() ==> {
                let c = #[trigger] final(clients).spec_players()[i];
                &&& c == (ClientNetwork { in_flight: c.in_flight, ..mid@.spec_players()[i] })
                &&& c.spec_in_flight() == settled_in_flight(
                    mid@,
                    messages@,
                    mid@.spec_players()[i].spec_client_id(),
                    mid@.spec_players()[i].spec_in_flight(),
                )
            },
{
    let ghost p0 = old(clients).spec_players();
    let ghost all_n = connections@;
    let mut connections = connections;
    let ghost mut done: int = 0;
    proof {
        assert(all_n.take(0) =~= Seq::<ConnectionMessage>::empty());
        assert(old(channels).connection@ + connect_events(all_n.take(0)) =~= old(
            channels,
        ).connection@);
        assert(old(channels).disconnect@ + disconnect_events(all_n.take(0)) =~= old(
            channels,
        ).disconnect@);
        assert(connections@ =~= all_n.skip(0));
    }
    while connections.len() > 0
        invariant
            clients.wf(),
            0 <= done <= all_n.len(),
            connections@ == all_n.skip(done),
            channels.connection@ == old(channels).connection@ + connect_events(all_n.take(done)),
            channels.disconnect@ == old(channels).disconnect@ + disconnect_events(
                all_n.take(done),
            ),
            channels.connection_info == old(channels).connection_info,
            channels.console_input == old(channels).console_input,
            channels.player_move == old(channels).player_move,
            channels.resources_has_cache == old(channels).resources_has_cache,
            channels.media_loaded == old(channels).media_loaded,
            channels.settings_loaded == old(channels).settings_loaded,
            channels.edit_block == old(channels).edit_block,
            connects_registered(p0, all_n.take(done), clients.spec_players()),
        decreases connections@.len(),
    {
        let ghost prefix = all_n.take(done);
        let notice = connections.remove(0);
        proof {
            assert(notice == all_n[done]);
            assert(connections@ =~= all_n.skip(done + 1));
            assert(all_n.take(done + 1).drop_last() =~= prefix);
            assert(all_n.take(done + 1).last() == all_n[done]);
        }
        match notice {
            ConnectionMessage::Connect { client_id, ip } => {
                let ghost ipv = ip@;
                let ghost before = *clients;
                clients.add(client_id, ip, SEND_CHUNK_QUEUE_LIMIT);
                channels.connection.emit_event(PlayerConnectionEvent { client_id });
                proof {
                    lemma_connect_prefix_step(all_n, done, client_id, ipv);
                    let pre1 = all_n.take(done + 1);
                    assert(channels.connection@ =~= old(channels).connection@ + connect_events(
                        pre1,
                    ));
                    assert(channels.disconnect@ =~= old(channels).disconnect@
                        + disconnect_events(pre1));
                    lemma_registered_connect_step(
                        p0,
                        all_n,
                        done,
                        before,
                        *clients,
                        client_id,
                        ipv,
                    );
                }
            },
            ConnectionMessage::Disconnect { client_id, reason } => {
                channels.disconnect.emit_event(PlayerDisconnectEvent { client_id, reason });
                proof {
                    lemma_disconnect_prefix_step(all_n, done);
                    let pre1 = all_n.take(done + 1);
                    assert(channels.connection@ =~= old(channels).connection@ + connect_events(
                        pre1,
                    ));
                    assert(channels.disconnect@ =~= old(channels).disconnect@
                        + disconnect_events(pre1));
                    lemma_registered_disconnect_step(p0, all_n, done, clients.spec_players());
                }
            },
        }
        proof {
            done = done + 1;
        }
    }
    proof {
        assert(all_n.take(done) =~= all_n);
    }
    let ghost mid = *clients;
    let ghost all_m = messages@;
    let mut messages = messages;
    let ghost mut mdone: int = 0;
    proof {
        assert(messages@ =~= all_m.skip(0));
        assert(all_m.take(0) =~= Seq::<(u64, ClientMessage)>::empty());
        assert(old(channels).connection_info@ + info_events(mid, all_m.take(0)) =~= old(
            channels,
        ).connection_info@);
        assert(old(channels).console_input@ + console_events(mid, all_m.take(0)) =~= old(
            channels,
        ).console_input@);
        assert(old(channels).player_move@ + move_events(mid, all_m.take(0)) =~= old(
            channels,
        ).player_move@);
        assert(old(channels).resources_has_cache@ + cache_events(mid, all_m.take(0)) =~= old(
            channels,
        ).resources_has_cache@);
        assert(old(channels).media_loaded@ + media_events(mid, all_m.take(0)) =~= old(
            channels,
        ).media_loaded@);
        assert(old(channels).settings_loaded@ + settings_events(mid, all_m.take(0)) =~= old(
            channels,
        ).settings_loaded@);
        assert(old(channels).edit_block@ + edit_events(mid, all_m.take(0)) =~= old(
            channels,
        ).edit_block@);
        assert forall|i: int| 0 <= i < mid.spec_players().len() implies {
            let c = #[trigger] clients.spec_players()[i];
            &&& c == (ClientNetwork { in_flight: c.in_flight, ..mid.spec_players()[i] })
            &&& c.spec_in_flight() == settled_in_flight(
                mid,
                all_m.take(mdone),
                mid.spec_players()[i].spec_client_id(),
                mid.spec_players()[i].spec_in_flight(),
            )
        } by {}
    }
    while messages.len() > 0
        invariant
            clients.wf(),
            mid.wf(),
            0 <= mdone <= all_m.len(),
            messages@ == all_m.skip(mdone),
            channels.connection@ == old(channels).connection@ + connect_events(all_n),
            channels.disconnect@ == old(channels).disconnect@ + disconnect_events(all_n),
            connects_registered(p0, all_n, mid.spec_players()),
            channels.connection_info@ == old(channels).connection_info@ + info_events(
                mid,
                all_m.take(mdone),
            ),
            channels.console_input@ == old(channels).console_input@ + console_events(
                mid,
                all_m.take(mdone),
            ),
            channels.player_move@ == old(channels).player_move@ + move_events(
                mid,
                all_m.take(mdone),
            ),
            channels.resources_has_cache@ == old(channels).resources_has_cache@ + cache_events(
                mid,
                all_m.take(mdone),
            ),
            channels.media_loaded@ == old(channels).media_loaded@ + media_events(
                mid,
                all_m.take(mdone),
            ),
            channels.settings_loaded@ == old(channels).settings_loaded@ + settings_events(
                mid,
                all_m.take(mdone),
            ),
            channels.edit_block@ == old(channels).edit_block@ + edit_events(
                mid,
                all_m.take(mdone),
            ),
            clients.spec_players().len() == mid.spec_players().len(),
            forall|i: int|
                0 <= i < mid.spec_players().len() ==> {
                    let c = #[trigger] clients.spec_players()[i];
                    &&& c == (ClientNetwork { in_flight: c.in_flight, ..mid.spec_players()[i] })
                    &&& c.spec_in_flight() == settled_in_flight(
                        mid,
                        all_m.take(mdone),
                        mid.spec_players()[i].spec_client_id(),
                        mid.spec_players()[i].spec_in_flight(),
                    )
                },
        decreases messages@.len(),
    {
        let ghost prefix = all_m.take(mdone);
        let ghost cur0 = *clients;
        let (client_id, message) = messages.remove(0);
        proof {
            assert((client_id, message) == all_m[mdone]);
            assert(messages@ =~= all_m.skip(mdone + 1));
            assert(all_m.take(mdone + 1).drop_last() =~= prefix);
            assert(all_m.take(mdone + 1).last() == all_m[mdone]);
        }
        let known = clients.find_index(client_id).is_some();
        proof {
            assert(known == mid.spec_has_client(client_id)) by {
                if clients.spec_has_client(client_id) {
                    let j = clients.spec_index_of(client_id);
                    assert(mid.spec_players()[j].spec_client_id() == client_id);
                }
                if mid.spec_has_client(client_id) {
                    let j = mid.spec_index_of(client_id);
                    assert(clients.spec_players()[j].spec_client_id() == client_id);
                }
            };
        }
        if known {
            handle_client_message(clients, channels, client_id, message);
        }
        proof {
            lemma_message_step(mid, all_m, mdone);
            let pre1 = all_m.take(mdone + 1);
            assert(channels.connection_info@ =~= old(channels).connection_info@ + info_events(
                mid,
                pre1,
            ));
            assert(channels.console_input@ =~= old(channels).console_input@ + console_events(
                mid,
                pre1,
            ));
            assert(channels.player_move@ =~= old(channels).player_move@ + move_events(
                mid,
                pre1,
            ));
            assert(channels.resources_has_cache@ =~= old(channels).resources_has_cache@
                + cache_events(mid, pre1));
            assert(channels.media_loaded@ =~= old(channels).media_loaded@ + media_events(
                mid,
                pre1,
            ));
            assert(channels.settings_loaded@ =~= old(channels).settings_loaded@
                + settings_events(mid, pre1));
            assert(channels.edit_block@ =~= old(channels).edit_block@ + edit_events(mid, pre1));
            assert forall|i: int| 0 <= i < mid.spec_players().len() implies {
                let c = #[trigger] clients.spec_players()[i];
                &&& c == (ClientNetwork { in_flight: c.in_flight, ..mid.spec_players()[i] })
                &&& c.spec_in_flight() == settled_in_flight(
                    mid,
                    all_m.take(mdone + 1),
                    mid.spec_players()[i].spec_client_id(),
                    mid.spec_players()[i].spec_in_flight(),
                )
            } by {
                let id_i = mid.spec_players()[i].spec_client_id();
                assert(cur0.spec_players()[i] == (ClientNetwork {
                    in_flight: cur0.spec_players()[i].in_flight,
                    ..mid.spec_players()[i]
                }));
                assert(cur0.spec_players()[i].spec_client_id() == id_i);
            }
            mdone = mdone + 1;
        }
    }
    proof {
        assert(all_m.take(mdone) =~= all_m);
    }
    Ghost(mid)
}

/// Extending a notice prefix with a connect notice appends its event and
/// makes its id's last address that notice's address.
proof fn lemma_connect_prefix_step(all_n: Seq<ConnectionMessage>, done: int, cid: u64, ipv: Seq<char>)
    requires
        0 <= done < all_n.len(),
        all_n[done] matches ConnectionMessage::Connect { client_id, ip } && client_id == cid
            && ip@ == ipv,
    ensures
        connect_events(all_n.take(done + 1)) == connect_events(all_n.take(done)) + seq![
            PlayerConnectionEvent { client_id: cid },
        ],
        disconnect_events(all_n.take(done + 1)) == disconnect_events(all_n.take(done)),
        last_connect_ip(all_n.take(done + 1), cid) == ipv,
        forall|id: u64|
            id != cid ==> #[trigger] last_connect_ip(all_n.take(done + 1), id)
                == last_connect_ip(all_n.take(done), id),
        forall|id: u64|
            #[trigger] has_connect_for(all_n.take(done + 1), id) == (has_connect_for(
                all_n.take(done),
                id,
            ) || id == cid),
{
    let pre = all_n.take(done);
    let pre1 = all_n.take(done + 1);
    assert(pre1.drop_last() =~= pre);
    assert(pre1.last() == all_n[done]);
    assert(disconnect_events(pre1) =~= disconnect_events(pre) + Seq::<
        PlayerDisconnectEvent,
    >::empty());
    assert forall|id: u64|
        #[trigger] has_connect_for(pre1, id) == (has_connect_for(pre, id) || id == cid) by {
        if has_connect_for(pre1, id) {
            let k = choose|k: int|
                0 <= k < pre1.len() && notice_connects(#[trigger] pre1[k], id);
            if k < done {
                assert(pre[k] == pre1[k]);
            }
        }
        if has_connect_for(pre, id) {
            let k = choose|k: int| 0 <= k < pre.len() && notice_connects(#[trigger] pre[k], id);
            assert(pre1[k] == pre[k]);
        }
        if id == cid {
            assert(pre1[done] == all_n[done]);
            assert(notice_connects(pre1[done], cid));
        }
    }
}

/// Extending a notice prefix with a disconnect notice appends its event
/// and changes no connect bookkeeping.
proof fn lemma_disconnect_prefix_step(all_n: Seq<ConnectionMessage>, done: int)
    requires
        0 <= done < all_n.len(),
        all_n[done] is Disconnect,
    ensures
        connect_events(all_n.take(done + 1)) == connect_events(all_n.take(done)),
        all_n[done] matches ConnectionMessage::Disconnect { client_id, reason }
            ==> disconnect_events(all_n.take(done + 1)) == disconnect_events(all_n.take(done))
            + seq![PlayerDisconnectEvent { client_id, reason }],
        forall|id: u64|
            #[trigger] has_connect_for(all_n.take(done + 1), id) == has_connect_for(
                all_n.take(done),
                id,
            ),
        forall|id: u64|
            #[trigger] last_connect_ip(all_n.take(done + 1), id) == last_connect_ip(
                all_n.take(done),
                id,
            ),
{
    let pre = all_n.take(done);
    let pre1 = all_n.take(done + 1);
    assert(pre1.drop_last() =~= pre);
    assert(pre1.last() == all_n[done]);
    assert(connect_events(pre1) =~= connect_events(pre) + Seq::<PlayerConnectionEvent>::empty());
    assert forall|id: u64|
        #[trigger] has_connect_for(pre1, id) == has_connect_for(pre, id) by {
        if has_connect_for(pre1, id) {
            let k = choose|k: int|
                0 <= k < pre1.len() && notice_connects(#[trigger] pre1[k], id);
            assert(k < done);
            assert(pre[k] == pre1[k]);
        }
        if has_connect_for(pre, id) {
            let k = choose|k: int| 0 <= k < pre.len() && notice_connects(#[trigger] pre[k], id);
            assert(pre1[k] == pre[k]);
        }
    }
}

/// Registering one connect notice keeps the registration relation over
/// the extended prefix.
proof fn lemma_registered_connect_step(
    p0: Seq<ClientNetwork>,
    all_n: Seq<ConnectionMessage>,
    done: int,
    before: ClientsContainer,
    after: ClientsContainer,
    cid: u64,
    ipv: Seq<char>,
)
    requires
        0 <= done < all_n.len(),
        all_n[done] matches ConnectionMessage::Connect { client_id, ip } && client_id == cid
            && ip@ == ipv,
        before.wf(),
        after.wf(),
        connects_registered(p0, all_n.take(done), before.spec_players()),
        after.spec_has_client(cid),
        before.spec_has_client(cid) ==> {
            let i = before.spec_index_of(cid);
            &&& after.spec_players() == before.spec_players().update(
                i,
                after.spec_players()[i],
            )
            &&& crate::client::is_fresh_session(
                after.spec_players()[i],
                cid,
                ipv,
                SEND_CHUNK_QUEUE_LIMIT,
            )
        },
        !before.spec_has_client(cid) ==> after.spec_players() == before.spec_players().push(
            after.spec_players().last(),
        ) && crate::client::is_fresh_session(
            after.spec_players().last(),
            cid,
            ipv,
            SEND_CHUNK_QUEUE_LIMIT,
        ),
    ensures
        connects_registered(p0, all_n.take(done + 1), after.spec_players()),
{
    let pre = all_n.take(done);
    let pre1 = all_n.take(done + 1);
    let pb = before.spec_players();
    let pa = after.spec_players();
    lemma_connect_prefix_step(all_n, done, cid, ipv);
    if before.spec_has_client(cid) {
        let i = before.spec_index_of(cid);
        assert(0 <= i < pb.len() && pb[i].spec_client_id() == cid);
        assert forall|j: int|
            0 <= j < p0.len() implies (#[trigger] pa[j]).spec_client_id()
            == p0[j].spec_client_id() by {
            if j != i {
                assert(pa[j] == pb[j]);
            }
        }
        assert forall|j: int|
            0 <= j < p0.len() implies (if has_connect_for(
            pre1,
            (#[trigger] p0[j]).spec_client_id(),
        ) {
            crate::client::is_fresh_session(
                pa[j],
                p0[j].spec_client_id(),
                last_connect_ip(pre1, p0[j].spec_client_id()),
                SEND_CHUNK_QUEUE_LIMIT,
            )
        } else {
            pa[j] == p0[j]
        }) by {
            if j == i {
                assert(p0[j].spec_client_id() == cid);
            } else {
                assert(pa[j] == pb[j]);
                assert(p0[j].spec_client_id() != cid) by {
                    if p0[j].spec_client_id() == cid {
                        assert(pb[j].spec_client_id() == cid);
                        assert(pb[i].spec_client_id() == pb[j].spec_client_id());
                        if j < i {
                            assert(pb[j].spec_client_id() != pb[i].spec_client_id());
                        } else {
                            assert(pb[i].spec_client_id() != pb[j].spec_client_id());
                        }
                    }
                };
            }
        }
        assert forall|j: int| p0.len() <= j < pa.len() implies {
            let id = (#[trigger] pa[j]).spec_client_id();
            &&& has_connect_for(pre1, id)
            &&& !players_have_id(p0, id)
            &&& crate::client::is_fresh_session(
                pa[j],
                id,
                last_connect_ip(pre1, id),
                SEND_CHUNK_QUEUE_LIMIT,
            )
        } by {
            if j != i {
                assert(pa[j] == pb[j]);
                assert(pb[j].spec_client_id() != cid) by {
                    if pb[j].spec_client_id() == cid {
                        if j < i {
                            assert(pb[j].spec_client_id() != pb[i].spec_client_id());
                        } else if i < j {
                            assert(pb[i].spec_client_id() != pb[j].spec_client_id());
                        }
                    }
                };
            } else {
                assert(pa[j].spec_client_id() == cid);
                assert(has_connect_for(pre1, cid));
            }
        }
        assert forall|id: u64| #[trigger] has_connect_for(pre1, id) implies players_have_id(
            pa,
            id,
        ) by {
            if id == cid {
                assert(pa[i].spec_client_id() == cid);
            } else {
                assert(has_connect_for(pre, id));
                assert(players_have_id(pb, id));
                let k = choose|k: int|
                    0 <= k < pb.len() && (#[trigger] pb[k]).spec_client_id() == id;
                assert(pa[k].spec_client_id() == id) by {
                    if k != i {
                        assert(pa[k] == pb[k]);
                    }
                };
            }
        }
    } else {
        assert(pa =~= pb.push(pa.last()));
        assert forall|j: int|
            0 <= j < p0.len() implies (#[trigger] pa[j]).spec_client_id()
            == p0[j].spec_client_id() by {
            assert(pa[j] == pb[j]);
        }
        assert forall|j: int|
            0 <= j < p0.len() implies (if has_connect_for(
            pre1,
            (#[trigger] p0[j]).spec_client_id(),
        ) {
            crate::client::is_fresh_session(
                pa[j],
                p0[j].spec_client_id(),
                last_connect_ip(pre1, p0[j].spec_client_id()),
                SEND_CHUNK_QUEUE_LIMIT,
            )
        } else {
            pa[j] == p0[j]
        }) by {
            assert(pa[j] == pb[j]);
            assert(p0[j].spec_client_id() != cid) by {
                if p0[j].spec_client_id() == cid {
                    assert(pb[j].spec_client_id() == cid);
                    assert(before.spec_has_client(cid));
                }
            };
        }
        assert forall|j: int| p0.len() <= j < pa.len() implies {
            let id = (#[trigger] pa[j]).spec_client_id();
            &&& has_connect_for(pre1, id)
            &&& !players_have_id(p0, id)
            &&& crate::client::is_fresh_session(
                pa[j],
                id,
                last_connect_ip(pre1, id),
                SEND_CHUNK_QUEUE_LIMIT,
            )
        } by {
            if j < pb.len() {
                assert(pa[j] == pb[j]);
                assert(pb[j].spec_client_id() != cid) by {
                    if pb[j].spec_client_id() == cid {
                        assert(before.spec_has_client(cid));
                    }
                };
            } else {
                assert(pa[j] == pa.last());
                assert(pa[j].spec_client_id() == cid);
                assert(!players_have_id(p0, cid)) by {
                    if players_have_id(p0, cid) {
                        let k = choose|k: int|
                            0 <= k < p0.len() && (#[trigger] p0[k]).spec_client_id() == cid;
                        assert(pb[k].spec_client_id() == cid);
                        assert(before.spec_has_client(cid));
                    }
                };
            }
        }
        assert forall|id: u64| #[trigger] has_connect_for(pre1, id) implies players_have_id(
            pa,
            id,
        ) by {
            if id == cid {
                assert(pa[pb.len() as int].spec_client_id() == cid);
            } else {
                assert(has_connect_for(pre, id));
                assert(players_have_id(pb, id));
                let k = choose|k: int|
                    0 <= k < pb.len() && (#[trigger] pb[k]).spec_client_id() == id;
                assert(pa[k].spec_client_id() == id);
            }
        }
    }
}

/// A disconnect notice leaves the registration relation standing over
/// the extended prefix.
proof fn lemma_registered_disconnect_step(
    p0: Seq<ClientNetwork>,
    all_n: Seq<ConnectionMessage>,
    done: int,
    p1: Seq<ClientNetwork>,
)
    requires
        0 <= done < all_n.len(),
        all_n[done] is Disconnect,
        connects_registered(p0, all_n.take(done), p1),
    ensures
        connects_registered(p0, all_n.take(done + 1), p1),
{
    lemma_disconnect_prefix_step(all_n, done);
}

/// Extending a message prefix by one message extends each event fold by
/// that message's contribution and steps each session's settled count.
proof fn lemma_message_step(mid: ClientsContainer, all_m: Seq<(u64, ClientMessage)>, mdone: int)
    requires
        0 <= mdone < all_m.len(),
    ensures
        info_events(mid, all_m.take(mdone + 1)) == info_events(mid, all_m.take(mdone)) + (
        match all_m[mdone].1 {
            ClientMessage::ConnectionInfo {
                login,
                version,
                architecture,
                rendering_device,
            } => if mid.spec_has_client(all_m[mdone].0) {
                seq![
                    PlayerConnectionInfoEvent {
                        client_id: all_m[mdone].0,
                        login,
                        version,
                        architecture,
                        rendering_device,
                    },
                ]
            } else {
                Seq::<PlayerConnectionInfoEvent>::empty()
            },
            _ => Seq::<PlayerConnectionInfoEvent>::empty(),
        }),
        console_events(mid, all_m.take(mdone + 1)) == console_events(mid, all_m.take(mdone)) + (
        match all_m[mdone].1 {
            ClientMessage::ConsoleInput { command } => if mid.spec_has_client(all_m[mdone].0) {
                seq![(all_m[mdone].0, command)]
            } else {
                Seq::<(u64, String)>::empty()
            },
            _ => Seq::<(u64, String)>::empty(),
        }),
        move_events(mid, all_m.take(mdone + 1)) == move_events(mid, all_m.take(mdone)) + (
        match all_m[mdone].1 {
            ClientMessage::PlayerMove { position, rotation, animation_state } => if mid.spec_has_client(
                all_m[mdone].0,
            ) {
                seq![
                    PlayerMoveEvent {
                        client_id: all_m[mdone].0,
                        position,
                        rotation,
                        animation_state,
                    },
                ]
            } else {
                Seq::<PlayerMoveEvent>::empty()
            },
            _ => Seq::<PlayerMoveEvent>::empty(),
        }),
        cache_events(mid, all_m.take(mdone + 1)) == cache_events(mid, all_m.take(mdone)) + (
        match all_m[mdone].1 {
            ClientMessage::ResourcesHasCache { exists } => if mid.spec_has_client(
                all_m[mdone].0,
            ) {
                seq![ResourcesHasCacheEvent { client_id: all_m[mdone].0, exists }]
            } else {
                Seq::<ResourcesHasCacheEvent>::empty()
            },
            _ => Seq::<ResourcesHasCacheEvent>::empty(),
        }),
        media_events(mid, all_m.take(mdone + 1)) == media_events(mid, all_m.take(mdone)) + (
        match all_m[mdone].1 {
            ClientMessage::ResourcesLoaded { last_index } => if mid.spec_has_client(
                all_m[mdone].0,
            ) {
                seq![
                    PlayerMediaLoadedEvent {
                        client_id: all_m[mdone].0,
                        last_index: Some(last_index),
                    },
                ]
            } else {
                Seq::<PlayerMediaLoadedEvent>::empty()
            },
            _ => Seq::<PlayerMediaLoadedEvent>::empty(),
        }),
        settings_events(mid, all_m.take(mdone + 1)) == settings_events(mid, all_m.take(mdone)) + (
        match all_m[mdone].1 {
            ClientMessage::SettingsLoaded => if mid.spec_has_client(all_m[mdone].0) {
                seq![PlayerSettingsLoadedEvent { client_id: all_m[mdone].0 }]
            } else {
                Seq::<PlayerSettingsLoadedEvent>::empty()
            },
            _ => Seq::<PlayerSettingsLoadedEvent>::empty(),
        }),
        edit_events(mid, all_m.take(mdone + 1)) == edit_events(mid, all_m.take(mdone)) + (
        match all_m[mdone].1 {
            ClientMessage::EditBlockRequest { world_slug, position, new_block_info } => if mid.spec_has_client(
                all_m[mdone].0,
            ) {
                seq![
                    EditBlockEvent {
                        client_id: all_m[mdone].0,
                        world_slug,
                        position,
                        new_block_info,
                    },
                ]
            } else {
                Seq::<EditBlockEvent>::empty()
            },
            _ => Seq::<EditBlockEvent>::empty(),
        }),
        forall|id: u64, in0: int|
            #[trigger] settled_in_flight(mid, all_m.take(mdone + 1), id, in0) == {
                let prev = settled_in_flight(mid, all_m.take(mdone), id, in0);
                match all_m[mdone].1 {
                    ClientMessage::ChunkReceived { chunk_positions } => if all_m[mdone].0 == id
                        && mid.spec_has_client(id) {
                        if prev >= chunk_positions@.len() {
                            prev - chunk_positions@.len()
                        } else {
                            0
                        }
                    } else {
                        prev
                    },
                    _ => prev,
                }
            },
{
    let pre = all_m.take(mdone);
    let pre1 = all_m.take(mdone + 1);
    assert(pre1.drop_last() =~= pre);
    assert(pre1.last() == all_m[mdone]);
}

/// How many of a tick's drained connection events name this client.
pub open spec fn connect_count_for(events: Seq<PlayerConnectionEvent>, client_id: u64) -> int
    decreases events.len(),
{
    if events.len() == 0 {
        0
    } else {
        (if events[0].client_id == client_id {
            1int
        } else {
            0int
        }) + connect_count_for(events.drop_first(), client_id)
    }
}

/// The greeting envelopes a session gains: `n` copies of the reliably
/// ordered connection-allowed frame.
pub open spec fn greetings(n: int) -> Seq<(NetworkMessageType, ServerMessage)> {
    Seq::new(
        if n >= 0 {
            n as nat
        } else {
            0nat
        },
        |k: int| (NetworkMessageType::ReliableOrdered, ServerMessage::AllowConnection),
    )
}

/// Greets every freshly connected client: each drained event whose id
/// names a registered session appends exactly one connection-allowed
/// frame to that session's outbox; an event of an unknown id does
/// nothing, and no session changes otherwise.
pub fn on_connection(clients: &mut ClientsContainer, events: Vec<PlayerConnectionEvent>)
    requires
        old(clients).wf(),
    ensures
        final(clients).wf(),
        final_like_outbox(*old(clients), *final(clients)),
        forall|i: int|
            0 <= i < old(clients).spec_players().len() ==> {
                let c_old = #[trigger] old(clients).spec_players()[i];
                let c_new = final(clients).spec_players()[i];
                c_new.spec_outbox() == c_old.spec_outbox() + greetings(
                    connect_count_for(events@, c_old.spec_client_id()),
                )
            },
{
    let ghost all = events@;
    let mut events = events;
    proof {
        assert forall|i: int| 0 <= i < clients.spec_players().len() implies {
            let c = #[trigger] clients.spec_players()[i];
            c.spec_outbox() == c.spec_outbox() + greetings(
                connect_count_for(all, c.spec_client_id()) - connect_count_for(
                    events@,
                    c.spec_client_id(),
                ),
            )
        } by {
            let c = clients.spec_players()[i];
            assert(c.spec_outbox() + greetings(0) =~= c.spec_outbox());
        }
    }
    while events.len() > 0
        invariant
            clients.wf(),
            final_like_outbox(*old(clients), *clients),
            clients.spec_players().len() == old(clients).spec_players().len(),
            forall|i: int|
                0 <= i < old(clients).spec_players().len() ==> {
                    let c_old = #[trigger] old(clients).spec_players()[i];
                    let c_new = clients.spec_players()[i];
                    c_new.spec_outbox() == c_old.spec_outbox() + greetings(
                        connect_count_for(all, c_old.spec_client_id()) - connect_count_for(
                            events@,
                            c_old.spec_client_id(),
                        ),
                    )
                },
            forall|c: u64| #[trigger] connect_count_for(events@, c) <= connect_count_for(all, c),
        decreases events@.len(),
    {
        let ghost remaining = events@;
        let ev = events.remove(0);
        proof {
            assert(events@ =~= remaining.drop_first());
            assert forall|c: u64| #[trigger] connect_count_for(events@, c) <= connect_count_for(
                all,
                c,
            ) by {
                assert(connect_count_for(remaining, c) == (if remaining[0].client_id == c {
                    1int
                } else {
                    0int
                }) + connect_count_for(remaining.drop_first(), c));
                assert(connect_count_for(remaining, c) <= connect_count_for(all, c));
            }
        }
        match clients.find_index(ev.client_id) {
            Some(i) => {
                let ghost before = *clients;
                let session = clients.index_mut(i);
                session.send_allow_connection();
                proof {
                    crate::sender::lemma_outbox_step(*old(clients), before, *clients, i as int);
                    assert forall|j: int|
                        0 <= j < old(clients).spec_players().len() implies {
                        let c_old = #[trigger] old(clients).spec_players()[j];
                        let c_new = clients.spec_players()[j];
                        c_new.spec_outbox() == c_old.spec_outbox() + greetings(
                            connect_count_for(all, c_old.spec_client_id()) - connect_count_for(
                                events@,
                                c_old.spec_client_id(),
                            ),
                        )
                    } by {
                        let c_old = old(clients).spec_players()[j];
                        let id = c_old.spec_client_id();
                        let before_cnt = connect_count_for(all, id) - connect_count_for(
                            remaining,
                            id,
                        );
                        assert(connect_count_for(remaining, id) == (if remaining[0].client_id
                            == id {
                            1int
                        } else {
                            0int
                        }) + connect_count_for(remaining.drop_first(), id));
                        if j == i {
                            assert(id == ev.client_id);
                            assert(connect_count_for(remaining, id) <= connect_count_for(
                                all,
                                id,
                            ));
                            assert(clients.spec_players()[j].spec_outbox()
                                == before.spec_players()[j].spec_outbox().push(
                                (NetworkMessageType::ReliableOrdered, ServerMessage::AllowConnection),
                            ));
                            assert(c_old.spec_outbox() + greetings(before_cnt + 1)
                                =~= (c_old.spec_outbox() + greetings(before_cnt)).push(
                                (NetworkMessageType::ReliableOrdered, ServerMessage::AllowConnection),
                            ));
                        } else {
                            assert(clients.spec_players()[j] == before.spec_players()[j]);
                            assert(id != ev.client_id) by {
                                if id == ev.client_id {
                                    lemma_index_of_is(before, ev.client_id, i as int);
                                    lemma_index_of_is(before, id, j);
                                }
                            };
                        }
                    }
                }
            },
            None => {
                proof {
                    assert forall|j: int|
                        0 <= j < old(clients).spec_players().len() implies {
                        let c_old = #[trigger] old(clients).spec_players()[j];
                        let c_new = clients.spec_players()[j];
                        c_new.spec_outbox() == c_old.spec_outbox() + greetings(
                            connect_count_for(all, c_old.spec_client_id()) - connect_count_for(
                                events@,
                                c_old.spec_client_id(),
                            ),
                        )
                    } by {
                        let c_old = old(clients).spec_players()[j];
                        let id = c_old.spec_client_id();
                        assert(connect_count_for(remaining, id) == (if remaining[0].client_id
                            == id {
                            1int
                        } else {
                            0int
                        }) + connect_count_for(remaining.drop_first(), id));
                        assert(id != ev.client_id) by {
                            assert(clients.spec_players()[j].spec_client_id() == id);
                        };
                    }
                }
            },
        }
    }
    proof {
        assert forall|i: int| 0 <= i < old(clients).spec_players().len() implies {
            let c_old = #[trigger] old(clients).spec_players()[i];
            let c_new = clients.spec_players()[i];
            c_new.spec_outbox() == c_old.spec_outbox() + greetings(
                connect_count_for(all, c_old.spec_client_id()),
            )
        } by {
            let c_old = old(clients).spec_players()[i];
            assert(connect_count_for(events@, c_old.spec_client_id()) == 0);
        }
    }
}

/// Whether some other session is already identified by this login.
pub open spec fn login_taken(clients: ClientsContainer, client_id: u64, login: Seq<char>) -> bool {
    exists|i: int|
        0 <= i < clients.spec_players().len() && (#[trigger] clients.spec_players()[
            i
        ]).spec_client_id() != client_id && match clients.spec_players()[i].spec_client_info() {
            Some(info) => info.login@ == login,
            None => false,
        }
}

/// Whether two scheme lists carry the same contents.
pub open spec fn schemes_alike(a: Seq<ResourceScheme>, b: Seq<ResourceScheme>) -> bool {
    &&& a.len() == b.len()
    &&& forall|i: int|
        0 <= i < a.len() ==> (#[trigger] a[i]).slug@ == b[i].slug@ && pairs_alike(
            a[i].scripts@,
            b[i].scripts@,
        ) && pairs_alike(a[i].media@, b[i].media@)
}

/// Whether two hash-to-slug pair lists carry the same contents.
pub open spec fn pairs_alike(a: Seq<(String, String)>, b: Seq<(String, String)>) -> bool {
    &&& a.len() == b.len()
    &&& forall|i: int| 0 <= i < a.len() ==> (#[trigger] a[i]).0@ == b[i].0@ && a[i].1@ == b[i].1@
}

/// Handles one identification. A login already held by another session
/// is refused: the newcomer is disconnected with the standing reason and
/// nothing else changes. Otherwise the session is identified, and either
/// the resources scheme is sent (when resources exist) or the client
/// counts as media-loaded at once.
pub fn handle_connection_info(
    clients: &mut ClientsContainer,
    archive: &ResourcesArchive,
    media_loaded_channel: &mut EventChannel<PlayerMediaLoadedEvent>,
    event: PlayerConnectionInfoEvent,
) -> (dup: bool)
    requires
        old(clients).wf(),
        archive.wf(),
        archive.is_finalized(),
    ensures
        final(clients).wf(),
        dup == login_taken(*old(clients), event.client_id, event.login@),
        !old(clients).spec_has_client(event.client_id) ==> *final(clients) == *old(clients)
            && *final(media_loaded_channel) == *old(media_loaded_channel),
        old(clients).spec_has_client(event.client_id) ==> {
            let i = old(clients).spec_index_of(event.client_id);
            let c_old = old(clients).spec_players()[i];
            let c_new = final(clients).spec_players()[i];
            &&& final(clients).spec_players().len() == old(clients).spec_players().len()
            &&& forall|j: int|
                0 <= j < old(clients).spec_players().len() && j != i
                    ==> #[trigger] final(clients).spec_players()[j] == old(
                    clients,
                ).spec_players()[j]
            &&& if dup {
                &&& c_new == (ClientNetwork {
                    connected: false,
                    disconnect_reason: c_new.disconnect_reason,
                    ..c_old
                })
                &&& !c_new.spec_connected()
                &&& c_new.spec_disconnect_reason() matches Some(reason) && reason@
                    == "This account is already logged in from another session."@
                &&& *final(media_loaded_channel) == *old(media_loaded_channel)
            } else {
                &&& c_new == (ClientNetwork {
                    client_info: c_new.client_info,
                    outbox: c_new.outbox,
                    ..c_old
                })
                &&& c_new.spec_client_info() matches Some(info) && info.login@ == event.login@
                    && info.version@ == event.version@ && info.architecture@
                    == event.architecture@ && info.rendering_device@ == event.rendering_device@
                &&& if archive.spec_schemes().len() > 0 {
                    &&& *final(media_loaded_channel) == *old(media_loaded_channel)
                    &&& c_new.spec_outbox().len() == c_old.spec_outbox().len() + 1
                    &&& c_new.spec_outbox().last().0 is ReliableOrdered
                    &&& c_new.spec_outbox().last().1 matches ServerMessage::ResourcesScheme {
                        list,
                        archive_hash,
                    } && archive_hash == archive.spec_archive_hash() && schemes_alike(
                        list@,
                        archive.spec_schemes(),
                    )
                } else {
                    &&& c_new.spec_outbox() == c_old.spec_outbox()
                    &&& final(media_loaded_channel)@ == old(media_loaded_channel)@.push(
                        (PlayerMediaLoadedEvent { client_id: event.client_id, last_index: None }),
                    )
                }
            }
        },
{
    let dup_index = find_other_with_login(clients, event.client_id, &event.login);
    let i = match clients.find_index(event.client_id) {
        Some(i) => i,
        None => {
            return dup_index.is_some();
        },
    };
    match dup_index {
        Some(_other) => {
            let ghost before = *clients;
            let session = clients.index_mut(i);
            session.disconnect(
                Some(
                    String::from_str("This account is already logged in from another session."),
                ),
            );
            proof {
                lemma_session_update_wf(before, *clients, i as int);
                lemma_index_of_is(before, event.client_id, i as int);
            }
            true
        },
        None => {
            let info = ClientInfo::new(
                clone_string(&event.login),
                clone_string(&event.version),
                clone_string(&event.architecture),
                clone_string(&event.rendering_device),
            );
            let ghost before = *clients;
            {
                let session = clients.index_mut(i);
                session.set_client_info(info);
            }
            proof {
                lemma_session_update_wf(before, *clients, i as int);
                lemma_index_of_is(before, event.client_id, i as int);
            }
            if archive.get_resources_scheme().len() > 0 {
                let scheme_list = clone_schemes(archive.get_resources_scheme());
                let message = ServerMessage::ResourcesScheme {
                    list: scheme_list,
                    archive_hash: archive.get_archive_hash(),
                };
                let ghost mid = *clients;
                let session = clients.index_mut(i);
                session.send_message(NetworkMessageType::ReliableOrdered, message);
                proof {
                    lemma_session_update_wf(mid, *clients, i as int);
                }
            } else {
                media_loaded_channel.emit_event(
                    PlayerMediaLoadedEvent { client_id: event.client_id, last_index: None },
                );
            }
            false
        },
    }
}

/// The index of a session other than `client_id` identified by `login`.
fn find_other_with_login(
    clients: &ClientsContainer,
    client_id: u64,
    login: &String,
) -> (r: Option<usize>)
    ensures
        r is Some == login_taken(*clients, client_id, login@),
{
    let n = clients.len();
    let mut i: usize = 0;
    while i < n
        invariant
            n == clients.spec_players().len(),
            i <= n,
            forall|j: int|
                0 <= j < i ==> !((#[trigger] clients.spec_players()[j]).spec_client_id()
                    != client_id && match clients.spec_players()[j].spec_client_info() {
                    Some(info) => info.login@ == login@,
                    None => false,
                }),
        decreases n - i,
    {
        let other = clients.index(i);
        if other.get_client_id() != client_id && other.has_login(login) {
            return Some(i);
        }
        i = i + 1;
    }
    None
}

/// An element-wise update of one session keeps registry validity when
/// the session's id is unchanged and it stays valid.
pub proof fn lemma_session_update_wf(
    before: ClientsContainer,
    after: ClientsContainer,
    i: int,
)
    requires
        before.wf(),
        0 <= i < before.spec_players().len(),
        after.spec_players() == before.spec_players().update(i, after.spec_players()[i]),
        after.spec_players()[i].spec_client_id() == before.spec_players()[i].spec_client_id(),
        after.spec_players()[i].wf(),
    ensures
        after.wf(),
{
    assert forall|a: int, b: int|
        0 <= a < b < after.spec_players().len() implies after.spec_players()[a].spec_client_id()
        != after.spec_players()[b].spec_client_id() by {
        assert(after.spec_players()[a].spec_client_id() == before.spec_players()[
            a
        ].spec_client_id());
        assert(after.spec_players()[b].spec_client_id() == before.spec_players()[
            b
        ].spec_client_id());
    }
    assert forall|k: int| 0 <= k < after.spec_players().len() implies (
    #[trigger] after.spec_players()[k]).wf() by {
        if k != i {
            assert(after.spec_players()[k] == before.spec_players()[k]);
        }
    }
}

/// With unique ids, a found index is the looked-up index.
pub proof fn lemma_index_of_is(clients: ClientsContainer, client_id: u64, i: int)
    requires
        clients.wf(),
        0 <= i < clients.spec_players().len(),
        clients.spec_players()[i].spec_client_id() == client_id,
    ensures
        clients.spec_has_client(client_id),
        clients.spec_index_of(client_id) == i,
{
    assert(clients.spec_has_client(client_id));
    let j = clients.spec_index_of(client_id);
    if i != j {
        if i < j {
            assert(clients.spec_players()[i].spec_client_id() != clients.spec_players()[
                j
            ].spec_client_id());
        } else {
            assert(clients.spec_players()[j].spec_client_id() != clients.spec_players()[
                i
            ].spec_client_id());
        }
    }
}

/// A deep copy of a scheme list.
fn clone_schemes(schemes: &Vec<ResourceScheme>) -> (r: Vec<ResourceScheme>)
    ensures
        schemes_alike(r@, schemes@),
{
    let n = schemes.len();
    let mut out: Vec<ResourceScheme> = Vec::new();
    let mut i: usize = 0;
    while i < n
        invariant
            n == schemes@.len(),
            i <= n,
            out@.len() == i,
            forall|j: int|
                0 <= j < i ==> (#[trigger] out@[j]).slug@ == schemes@[j].slug@ && pairs_alike(
                    out@[j].scripts@,
                    schemes@[j].scripts@,
                ) && pairs_alike(out@[j].media@, schemes@[j].media@),
        decreases n - i,
    {
        let s = &schemes[i];
        out.push(
            ResourceScheme {
                slug: clone_string(&s.slug),
                scripts: clone_string_pairs(&s.scripts),
                media: clone_string_pairs(&s.media),
            },
        );
        i = i + 1;
    }
    out
}

/// A deep copy of a pair list.
pub fn clone_string_pairs(pairs: &Vec<(String, String)>) -> (r: Vec<(String, String)>)
    ensures
        pairs_alike(r@, pairs@),
{
    let n = pairs.len();
    let mut out: Vec<(String, String)> = Vec::new();
    let mut i: usize = 0;
    while i < n
        invariant
            n == pairs@.len(),
            i <= n,
            out@.len() == i,
            forall|j: int|
                0 <= j < i ==> (#[trigger] out@[j]).0@ == pairs@[j].0@ && out@[j].1@
                    == pairs@[j].1@,
        decreases n - i,
    {
        out.push((clone_string(&pairs[i].0), clone_string(&pairs[i].1)));
        i = i + 1;
    }
    out
}

/// The server core as a plugin: the entry points wired into the tick.
pub struct NetworkPlugin {}

impl NetworkPlugin {
    /// Sends one console-output line to a client, reliably and in order.
    pub fn send_console_output(client: &mut ClientNetwork, message: String)
        ensures
            final(client).spec_outbox() == old(client).spec_outbox().push(
                (
                    NetworkMessageType::ReliableOrdered,
                    ServerMessage::ConsoleOutput { message },
                ),
            ),
            *final(client) == (ClientNetwork { outbox: final(client).outbox, ..*old(client) }),
    {
        client.send_message(NetworkMessageType::ReliableOrdered, ServerMessage::ConsoleOutput { message });
    }
}

/// Handles one cache answer. A client without the archive cached gets the
/// first part; one with it cached — or when there are no resources —
/// counts as media-loaded at once.
pub fn handle_resources_has_cache(
    clients: &mut ClientsContainer,
    archive: &ResourcesArchive,
    media_loaded_channel: &mut EventChannel<PlayerMediaLoadedEvent>,
    event: ResourcesHasCacheEvent,
)
    requires
        old(clients).wf(),
        archive.wf(),
        archive.is_finalized(),
        archive.spec_archive_data().len() + ARCHIVE_CHUNK_SIZE < usize::MAX,
        spec_parts_count(archive.spec_archive_data().len() as int, ARCHIVE_CHUNK_SIZE as int)
            <= u32::MAX,
    ensures
        final(clients).wf(),
        !old(clients).spec_has_client(event.client_id) ==> *final(clients) == *old(clients)
            && *final(media_loaded_channel) == *old(media_loaded_channel),
        old(clients).spec_has_client(event.client_id) ==> {
            let i = old(clients).spec_index_of(event.client_id);
            let c_old = old(clients).spec_players()[i];
            let c_new = final(clients).spec_players()[i];
            &&& final(clients).spec_players().len() == old(clients).spec_players().len()
            &&& forall|j: int|
                0 <= j < old(clients).spec_players().len() && j != i
                    ==> #[trigger] final(clients).spec_players()[j] == old(
                    clients,
                ).spec_players()[j]
            &&& if !event.exists && archive.spec_archive_data().len() > 0 {
                &&& *final(media_loaded_channel) == *old(media_loaded_channel)
                &&& c_new == (ClientNetwork { outbox: c_new.outbox, ..c_old })
                &&& c_new.spec_outbox() == c_old.spec_outbox().push(
                    c_new.spec_outbox().last(),
                )
                &&& c_new.spec_outbox().last().0 is ReliableUnordered
                &&& c_new.spec_outbox().last().1 matches ServerMessage::ResourcesPart {
                    index,
                    total,
                    data,
                } && index == 0 && total == spec_parts_count(
                    archive.spec_archive_data().len() as int,
                    ARCHIVE_CHUNK_SIZE as int,
                ) && data@ == archive.spec_archive_data().subrange(
                    0,
                    if ARCHIVE_CHUNK_SIZE <= archive.spec_archive_data().len() {
                        ARCHIVE_CHUNK_SIZE as int
                    } else {
                        archive.spec_archive_data().len() as int
                    },
                )
            } else {
                &&& c_new == c_old
                &&& final(media_loaded_channel)@ == old(media_loaded_channel)@.push(
                    (PlayerMediaLoadedEvent { client_id: event.client_id, last_index: None }),
                )
            }
        },
{
    let i = match clients.find_index(event.client_id) {
        Some(i) => i,
        None => {
            return ;
        },
    };
    proof {
        lemma_index_of_is(*clients, event.client_id, i as int);
    }
    if !event.exists && archive.has_any() {
        let total = archive.get_archive_parts_count(ARCHIVE_CHUNK_SIZE);
        proof {
            lemma_parts_positive(archive.spec_archive_data().len() as int, ARCHIVE_CHUNK_SIZE as int);
        }
        let data = archive.get_archive_part(0, ARCHIVE_CHUNK_SIZE);
        let message = ServerMessage::ResourcesPart { index: 0, total: total as u32, data };
        let ghost before = *clients;
        let session = clients.index_mut(i);
        session.send_message(NetworkMessageType::ReliableUnordered, message);
        proof {
            lemma_session_update_wf(before, *clients, i as int);
        }
    } else {
        media_loaded_channel.emit_event(
            PlayerMediaLoadedEvent { client_id: event.client_id, last_index: None },
        );
    }
}

/// A non-empty byte string splits into at least one part.
proof fn lemma_parts_positive(len: int, chunk_size: int)
    requires
        chunk_size > 0,
        len > 0,
    ensures
        spec_parts_count(len, chunk_size) > 0,
{
    vstd::arithmetic::div_mod::lemma_div_non_zero(len + chunk_size - 1, chunk_size);
}

/// Handles one media-loaded confirmation: the next archive part goes out
/// while parts remain; after the last one — or when the client needed no
/// parts — the server settings go out and the handshake advances.
pub fn handle_media_loaded(
    clients: &mut ClientsContainer,
    archive: &ResourcesArchive,
    server_settings: &ServerSettings,
    event: PlayerMediaLoadedEvent,
)
    requires
        old(clients).wf(),
        archive.wf(),
        archive.is_finalized(),
        archive.spec_archive_data().len() + ARCHIVE_CHUNK_SIZE < usize::MAX,
        spec_parts_count(archive.spec_archive_data().len() as int, ARCHIVE_CHUNK_SIZE as int)
            <= u32::MAX,
    ensures
        final(clients).wf(),
        !old(clients).spec_has_client(event.client_id) ==> *final(clients) == *old(clients),
        old(clients).spec_has_client(event.client_id) ==> {
            let i = old(clients).spec_index_of(event.client_id);
            let c_old = old(clients).spec_players()[i];
            let c_new = final(clients).spec_players()[i];
            let total = spec_parts_count(
                archive.spec_archive_data().len() as int,
                ARCHIVE_CHUNK_SIZE as int,
            );
            &&& final(clients).spec_players().len() == old(clients).spec_players().len()
            &&& forall|j: int|
                0 <= j < old(clients).spec_players().len() && j != i
                    ==> #[trigger] final(clients).spec_players()[j] == old(
                    clients,
                ).spec_players()[j]
            &&& c_new == (ClientNetwork { outbox: c_new.outbox, ..c_old })
            &&& c_new.spec_outbox() == c_old.spec_outbox().push(c_new.spec_outbox().last())
            &&& match event.last_index {
                Some(index) => {
                    if index + 1 < total {
                        &&& c_new.spec_outbox().last().0 is ReliableUnordered
                        &&& c_new.spec_outbox().last().1
                            matches ServerMessage::ResourcesPart { index: idx, total: t, data }
                            && idx == index + 1 && t == total && data@
                            == archive.spec_archive_data().subrange(
                            (index + 1) * (ARCHIVE_CHUNK_SIZE as int),
                            if (index + 2) * (ARCHIVE_CHUNK_SIZE as int)
                                <= archive.spec_archive_data().len() {
                                (index + 2) * (ARCHIVE_CHUNK_SIZE as int)
                            } else {
                                archive.spec_archive_data().len() as int
                            },
                        )
                    } else {
                        settings_sent(c_old, c_new, *server_settings)
                    }
                },
                None => settings_sent(c_old, c_new, *server_settings),
            }
        },
{
    let i = match clients.find_index(event.client_id) {
        Some(i) => i,
        None => {
            return ;
        },
    };
    proof {
        lemma_index_of_is(*clients, event.client_id, i as int);
    }
    match event.last_index {
        Some(index) => {
            let total = archive.get_archive_parts_count(ARCHIVE_CHUNK_SIZE);
            if (index as u64) + 1 < total as u64 {
                let data = archive.get_archive_part(index as usize + 1, ARCHIVE_CHUNK_SIZE);
                let message = ServerMessage::ResourcesPart {
                    index: index + 1,
                    total: total as u32,
                    data,
                };
                let ghost before = *clients;
                let session = clients.index_mut(i);
                session.send_message(NetworkMessageType::ReliableUnordered, message);
                proof {
                    lemma_session_update_wf(before, *clients, i as int);
                }
                return ;
            }
            let message = server_settings.get_network_settings();
            let ghost before = *clients;
            let session = clients.index_mut(i);
            session.send_message(NetworkMessageType::ReliableOrdered, message);
            proof {
                lemma_session_update_wf(before, *clients, i as int);
            }
        },
        None => {
            let message = server_settings.get_network_settings();
            let ghost before = *clients;
            let session = clients.index_mut(i);
            session.send_message(NetworkMessageType::ReliableOrdered, message);
            proof {
                lemma_session_update_wf(before, *clients, i as int);
            }
        },
    }
}

/// Whether the session was sent exactly the server settings envelope,
/// reliably ordered.
pub open spec fn settings_sent(
    c_old: ClientNetwork,
    c_new: ClientNetwork,
    server_settings: ServerSettings,
) -> bool {
    &&& c_new.spec_outbox().last().0 is ReliableOrdered
    &&& c_new.spec_outbox().last().1 matches ServerMessage::ServerSettings { block_id_map }
        && block_id_map@.len() == server_settings.block_id_map@.len() && forall|k: int|
        0 <= k < block_id_map@.len() ==> (#[trigger] block_id_map@[k]).0
            == server_settings.block_id_map@[k].0 && block_id_map@[k].1@
            == server_settings.block_id_map@[k].1@
}

/// The entity a session's client stands for, when attached to a world.
pub open spec fn attached_entity(clients: ClientsContainer, client_id: u64) -> Option<u64> {
    if clients.spec_has_client(client_id) {
        match clients.spec_players()[clients.spec_index_of(client_id)].spec_world_entity() {
            Some(we) => Some(we.spec_entity_id()),
            None => None,
        }
    } else {
        None
    }
}

/// Handles one settings-loaded notice: an identified client of a known
/// session is spawned into the default world at the spawn point and its
/// session attached there.
pub fn handle_settings_loaded(
    clients: &mut ClientsContainer,
    worlds: &mut WorldsManager,
    event: PlayerSettingsLoadedEvent,
)
    requires
        old(clients).wf(),
        old(worlds).wf(),
    ensures
        final(clients).wf(),
        final(worlds).wf(),
        final(worlds).worlds@.len() == old(worlds).worlds@.len(),
        forall|j: int|
            0 <= j < old(worlds).worlds@.len() ==> (#[trigger] final(worlds).worlds@[j]).slug
                == old(worlds).worlds@[j].slug,
        ({
            let ready = old(clients).spec_has_client(event.client_id) && old(
                clients,
            ).spec_players()[old(clients).spec_index_of(event.client_id)].spec_client_info()
                is Some && old(worlds).spec_has_world("default"@);
            !ready ==> *final(clients) == *old(clients) && *final(worlds) == *old(worlds)
        }),
        (old(clients).spec_has_client(event.client_id) && old(clients).spec_players()[
            old(clients).spec_index_of(event.client_id)
        ].spec_client_info() is Some && old(worlds).spec_has_world("default"@) && spawn_room(
            *old(worlds),
        )) ==> {
            let i = old(clients).spec_index_of(event.client_id);
            let c_new = final(clients).spec_players()[i];
            &&& final(clients).spec_players().len() == old(clients).spec_players().len()
            &&& forall|j: int|
                0 <= j < old(clients).spec_players().len() && j != i
                    ==> #[trigger] final(clients).spec_players()[j] == old(
                    clients,
                ).spec_players()[j]
            &&& c_new.spec_world_entity() matches Some(we) && we.spec_world_slug() == "default"@
                && {
                let wi = spec_world_index(*old(worlds), "default"@);
                let w_new = final(worlds).worlds@[wi];
                let rec = w_new.ecs.spec_record(we.spec_entity_id());
                &&& final(worlds).worlds@.len() == old(worlds).worlds@.len()
                &&& w_new.ecs.has_entity(we.spec_entity_id())
                &&& rec.position == (crate::positions::Position {
                    x_milli: 0,
                    y_milli: 100000,
                    z_milli: 0,
                })
                &&& rec.rotation == (crate::positions::Rotation { yaw_milli: 0, pitch_milli: 0 })
                &&& rec.client_id == Some(event.client_id)
                &&& rec.tag matches Some(t) && t.tag.name@ == old(clients).spec_players()[
                    i
                ].spec_client_info()->0.login@ && t.tag.color is None && t.tag.background is None
                    && t.tag.font_size is None
                &&& rec.skin matches Some(s) && s.skin matches
                    crate::entities::EntitySkinData::Fixed { resource } && resource@
                    == "test://godot_robot.glb"@
            }
        },
{
    let i = match clients.find_index(event.client_id) {
        Some(i) => i,
        None => {
            return ;
        },
    };
    proof {
        lemma_index_of_is(*clients, event.client_id, i as int);
    }
    let login = match clients.index(i).get_client_info() {
        Some(info) => clone_string(info.get_login()),
        None => {
            return ;
        },
    };
    let default_world = String::from_str("default");
    let wi = match worlds.find_world(&default_world) {
        Some(wi) => wi,
        None => {
            return ;
        },
    };
    proof {
        lemma_world_index_is(*worlds, "default"@, wi as int);
    }
    if worlds.index(wi).get_ecs().peek_next_id() == u64::MAX {
        return ;
    }
    let skin = crate::entities::EntitySkinComponent::create(
        crate::entities::EntitySkinData::Fixed {
            resource: String::from_str("test://godot_robot.glb"),
        },
    );
    let tag = crate::entities::EntityTagComponent::create(
        crate::entities::EntityTagData::create(login, None, None, None),
    );
    let ghost skinv = skin;
    let ghost tagv = tag;
    let mut components: Vec<crate::entities::EntityComponent> = Vec::new();
    components.push(crate::entities::EntityComponent::Skin(Some(skin)));
    components.push(crate::entities::EntityComponent::Tag(Some(tag)));
    proof {
        reveal_with_fuel(crate::entities::spec_last_skin, 3);
        reveal_with_fuel(crate::entities::spec_last_tag, 3);
        assert(components@ =~= seq![
            crate::entities::EntityComponent::Skin(Some(skinv)),
            crate::entities::EntityComponent::Tag(Some(tagv)),
        ]);
        assert(components@.drop_last() =~= seq![
            crate::entities::EntityComponent::Skin(Some(skinv)),
        ]);
        assert(crate::entities::spec_last_tag(components@) == Some(tagv));
        assert(crate::entities::spec_last_skin(components@) == Some(skinv));
    }
    let position = crate::positions::Position { x_milli: 0, y_milli: 100000, z_milli: 0 };
    let rotation = crate::positions::Rotation { yaw_milli: 0, pitch_milli: 0 };
    let ghost worlds_before = *worlds;
    let world_entity;
    {
        let world = worlds.index_mut(wi);
        world_entity = world.spawn_player(position, rotation, Some(event.client_id), components);
        proof {
            lemma_world_update_wf(worlds_before, *worlds, wi as int);
        }
    }
    let ghost clients_before = *clients;
    let session = clients.index_mut(i);
    session.set_world_entity(world_entity);
    proof {
        lemma_session_update_wf(clients_before, *clients, i as int);
    }
}

/// Whether the default world can take one more entity.
pub open spec fn spawn_room(worlds: WorldsManager) -> bool {
    worlds.worlds@[spec_world_index(worlds, "default"@)].ecs.next_id < u64::MAX
}

/// The index of the world with a slug.
pub open spec fn spec_world_index(worlds: WorldsManager, slug: Seq<char>) -> int {
    choose|i: int| 0 <= i < worlds.worlds@.len() && (#[trigger] worlds.worlds@[i]).slug@ == slug
}

/// With unique slugs, a found index is the looked-up index.
pub proof fn lemma_world_index_is(worlds: WorldsManager, slug: Seq<char>, i: int)
    requires
        worlds.wf(),
        0 <= i < worlds.worlds@.len(),
        worlds.worlds@[i].slug@ == slug,
    ensures
        worlds.spec_has_world(slug),
        spec_world_index(worlds, slug) == i,
{
    assert(worlds.spec_has_world(slug));
    let j = spec_world_index(worlds, slug);
    if i != j {
        if i < j {
            assert(worlds.worlds@[i].slug@ != worlds.worlds@[j].slug@);
        } else {
            assert(worlds.worlds@[j].slug@ != worlds.worlds@[i].slug@);
        }
    }
}

/// An element-wise update of one world keeps registry validity when its
/// slug is unchanged and it stays valid.
pub proof fn lemma_world_update_wf(before: WorldsManager, after: WorldsManager, i: int)
    requires
        before.wf(),
        0 <= i < before.worlds@.len(),
        after.worlds@ == before.worlds@.update(i, after.worlds@[i]),
        after.worlds@[i].slug@ == before.worlds@[i].slug@,
        after.worlds@[i].wf(),
    ensures
        after.wf(),
{
    assert forall|a: int, b: int|
        0 <= a < b < after.worlds@.len() implies (#[trigger] after.worlds@[a]).slug@ != (
    #[trigger] after.worlds@[b]).slug@ by {
        assert(after.worlds@[a].slug@ == before.worlds@[a].slug@);
        assert(after.worlds@[b].slug@ == before.worlds@[b].slug@);
    }
    assert forall|k: int| 0 <= k < after.worlds@.len() implies (
    #[trigger] after.worlds@[k]).wf() by {
        if k != i {
            assert(after.worlds@[k] == before.worlds@[k]);
        }
    }
}

/// Handles one edit-block request. A request naming a world other than
/// the sender's attached world is tampering: it is dropped and no world
/// changes. A valid request edits the block; failure is answered to the
/// sender alone; success is fanned out to every session watching the
/// chunk.
/// Whether a session must be told of a block change: it is attached to
/// the edited world and its entity watches the edited chunk.
pub open spec fn edit_fanout_target(
    m_old: crate::chunk_map::ChunkMap,
    slug: Seq<char>,
    cp: crate::positions::ChunkPosition,
    c: ClientNetwork,
) -> bool {
    match c.spec_world_entity() {
        Some(we) => we.spec_world_slug() == slug && m_old.watches(we.spec_entity_id(), cp),
        None => false,
    }
}

pub fn handle_edit_block(
    clients: &mut ClientsContainer,
    worlds: &mut WorldsManager,
    event: EditBlockEvent,
)
    requires
        old(clients).wf(),
        old(worlds).wf(),
        crate::positions::block_in_bounds(event.position),
    ensures
        final(clients).wf(),
        final(worlds).wf(),
        final_like_outbox(*old(clients), *final(clients)),
        ({
            let authorized = old(clients).spec_has_client(event.client_id) && match old(
                clients,
            ).spec_players()[old(clients).spec_index_of(event.client_id)].spec_world_entity() {
                Some(we) => we.spec_world_slug() == event.world_slug@,
                None => None::<u64> is Some,
            };
            !authorized ==> *final(worlds) == *old(worlds) && *final(clients) == *old(clients)
        }),
        final(worlds).worlds@.len() == old(worlds).worlds@.len(),
        forall|j: int|
            0 <= j < old(worlds).worlds@.len() ==> (#[trigger] final(worlds).worlds@[j]).slug
                == old(worlds).worlds@[j].slug && final(worlds).worlds@[j].ecs == old(
                worlds,
            ).worlds@[j].ecs,
        ({
            let authorized = old(clients).spec_has_client(event.client_id) && match old(
                clients,
            ).spec_players()[old(clients).spec_index_of(event.client_id)].spec_world_entity() {
                Some(we) => we.spec_world_slug() == event.world_slug@,
                None => None::<u64> is Some,
            };
            authorized && old(worlds).spec_has_world(event.world_slug@) ==> {
                let wi = spec_world_index(*old(worlds), event.world_slug@);
                let w_old = old(worlds).worlds@[wi];
                let cp = event.position.spec_chunk_position();
                let edit_ok = w_old.chunks_map.has_column(cp) && w_old.chunks_map.spec_entry(
                    cp,
                ).load_state is Loaded && event.position.y >= 0 && crate::positions::floor_div(
                    event.position.y as int,
                    16,
                ) < w_old.chunks_map.spec_entry(cp).column.sections@.len();
                &&& (forall|j: int|
                    0 <= j < old(worlds).worlds@.len() && j != wi
                        ==> #[trigger] final(worlds).worlds@[j] == old(worlds).worlds@[j])
                &&& (edit_ok ==> crate::chunk_map::ChunkMap::edited_map_ok(
                    w_old.chunks_map,
                    final(worlds).worlds@[wi].chunks_map,
                    event.position,
                    event.new_block_info,
                ) && (forall|i: int|
                    0 <= i < old(clients).spec_players().len() ==> {
                        let c_old = #[trigger] old(clients).spec_players()[i];
                        let c_new = final(clients).spec_players()[i];
                        let tgt = edit_fanout_target(
                            w_old.chunks_map,
                            event.world_slug@,
                            cp,
                            c_old,
                        );
                        &&& c_new.spec_outbox().len() == c_old.spec_outbox().len() + (if tgt {
                            1int
                        } else {
                            0int
                        })
                        &&& (forall|k: int|
                            0 <= k < c_old.spec_outbox().len()
                                ==> #[trigger] c_new.spec_outbox()[k] == c_old.spec_outbox()[k])
                        &&& (tgt ==> {
                            let m = c_new.spec_outbox().last();
                            &&& m.0 is ReliableOrdered
                            &&& m.1 matches ServerMessage::BlockChanged {
                                world_slug,
                                position,
                                new_block_info,
                            } && world_slug@ == event.world_slug@ && position == event.position
                                && new_block_info == event.new_block_info
                        })
                    }))
                &&& (!edit_ok ==> (forall|j: int|
                    0 <= j < old(worlds).worlds@.len() ==> #[trigger] final(worlds).worlds@[j]
                        == old(worlds).worlds@[j]) && (forall|i: int|
                    0 <= i < old(clients).spec_players().len() ==> {
                        let c_old = #[trigger] old(clients).spec_players()[i];
                        let c_new = final(clients).spec_players()[i];
                        if c_old.spec_client_id() == event.client_id {
                            crate::console::console_line_appended(
                                c_old.spec_outbox(),
                                c_new.spec_outbox(),
                            )
                        } else {
                            c_new == c_old
                        }
                    }))
            }
        }),
{
    let i = match clients.find_index(event.client_id) {
        Some(i) => i,
        None => {
            return ;
        },
    };
    proof {
        lemma_index_of_is(*clients, event.client_id, i as int);
    }
    let we_slug = match clients.index(i).get_world_entity() {
        Some(we) => clone_string(we.get_world_slug()),
        None => {
            return ;
        },
    };
    if !crate::strutil::string_eq(&we_slug, &event.world_slug) {
        return ;
    }
    let wi = match worlds.find_world(&we_slug) {
        Some(wi) => wi,
        None => {
            return ;
        },
    };
    proof {
        lemma_world_index_is(*worlds, event.world_slug@, wi as int);
    }
    let ghost worlds_before = *worlds;
    let ghost w_old = worlds.worlds@[wi as int];
    let edit_result;
    {
        let world = worlds.index_mut(wi);
        edit_result = world.get_chunks_map_mut().edit_block(event.position, event.new_block_info);
        proof {
            lemma_world_update_wf(worlds_before, *worlds, wi as int);
        }
    }
    match edit_result {
        Err(message) => {
            proof {
                assert(worlds.worlds@[wi as int] == worlds_before.worlds@[wi as int]);
                assert(worlds.worlds@ =~= worlds_before.worlds@);
            }
            let ghost before = *clients;
            let ghost msg0 = message;
            let session = clients.index_mut(i);
            session.send_message(
                NetworkMessageType::ReliableOrdered,
                ServerMessage::ConsoleOutput { message },
            );
            proof {
                crate::sender::lemma_outbox_step(*old(clients), before, *clients, i as int);
                assert(clients.spec_players()[i as int].spec_outbox() == before.spec_players()[
                    i as int
                ].spec_outbox().push(
                    (
                        NetworkMessageType::ReliableOrdered,
                        ServerMessage::ConsoleOutput { message: msg0 },
                    ),
                ));
                assert(crate::console::console_line_appended(
                    before.spec_players()[i as int].spec_outbox(),
                    clients.spec_players()[i as int].spec_outbox(),
                ));
                assert forall|j: int|
                    0 <= j < old(clients).spec_players().len() implies {
                    let c_old = #[trigger] old(clients).spec_players()[j];
                    let c_new = clients.spec_players()[j];
                    if c_old.spec_client_id() == event.client_id {
                        crate::console::console_line_appended(
                            c_old.spec_outbox(),
                            c_new.spec_outbox(),
                        )
                    } else {
                        c_new == c_old
                    }
                } by {
                    if j != i {
                        assert(clients.spec_players()[j] == old(clients).spec_players()[j]);
                        if old(clients).spec_players()[j].spec_client_id() == event.client_id {
                            lemma_index_of_is(*old(clients), event.client_id, j);
                            lemma_index_of_is(*old(clients), event.client_id, i as int);
                        }
                    }
                }
            }
        },
        Ok(()) => {
            let ghost cp = event.position.spec_chunk_position();
            proof {
                assert(crate::chunk_map::ChunkMap::edited_map_ok(
                    w_old.chunks_map,
                    worlds.worlds@[wi as int].chunks_map,
                    event.position,
                    event.new_block_info,
                ));
                assert forall|e2: u64|
                    worlds.worlds@[wi as int].chunks_map.watches(e2, cp) == w_old.chunks_map.watches(
                    e2,
                    cp,
                ) by {
                    if w_old.chunks_map.has_column(cp) {
                        assert(worlds.worlds@[wi as int].chunks_map.spec_entry(cp).watchers
                            == w_old.chunks_map.spec_entry(cp).watchers);
                    }
                }
            }
            let chunk = event.position.get_chunk_position();
            let watchers = worlds.index(wi).get_chunks_map().get_watchers(&chunk);
            let n = clients.len();
            let mut ci: usize = 0;
            while ci < n
                invariant
                    clients.wf(),
                    n == clients.spec_players().len(),
                    n == old(clients).spec_players().len(),
                    ci <= n,
                    final_like_outbox(*old(clients), *clients),
                    crate::positions::block_in_bounds(event.position),
                    cp == event.position.spec_chunk_position(),
                    forall|e2: u64| watchers@.contains(e2) == w_old.chunks_map.watches(e2, cp),
                    forall|j: int|
                        ci <= j < n ==> #[trigger] clients.spec_players()[j] == old(
                            clients,
                        ).spec_players()[j],
                    forall|j: int|
                        0 <= j < ci ==> {
                            let c_old = #[trigger] old(clients).spec_players()[j];
                            let c_new = clients.spec_players()[j];
                            let tgt = edit_fanout_target(
                                w_old.chunks_map,
                                event.world_slug@,
                                cp,
                                c_old,
                            );
                            &&& c_new.spec_outbox().len() == c_old.spec_outbox().len() + (
                            if tgt {
                                1int
                            } else {
                                0int
                            })
                            &&& (forall|k: int|
                                0 <= k < c_old.spec_outbox().len()
                                    ==> #[trigger] c_new.spec_outbox()[k]
                                    == c_old.spec_outbox()[k])
                            &&& (tgt ==> {
                                let m = c_new.spec_outbox().last();
                                &&& m.0 is ReliableOrdered
                                &&& m.1 matches ServerMessage::BlockChanged {
                                    world_slug,
                                    position,
                                    new_block_info,
                                } && world_slug@ == event.world_slug@ && position
                                    == event.position && new_block_info == event.new_block_info
                            })
                        },
                decreases n - ci,
            {
                let watching = match clients.index(ci).get_world_entity() {
                    Some(we) => crate::strutil::string_eq(we.get_world_slug(), &event.world_slug)
                        && crate::chunk_map::contains_u64(&watchers, we.get_entity()),
                    None => false,
                };
                proof {
                    assert(watching == edit_fanout_target(
                        w_old.chunks_map,
                        event.world_slug@,
                        cp,
                        old(clients).spec_players()[ci as int],
                    ));
                }
                if watching {
                    let message = ServerMessage::BlockChanged {
                        world_slug: clone_string(&event.world_slug),
                        position: event.position,
                        new_block_info: event.new_block_info,
                    };
                    let ghost before = *clients;
                    let session = clients.index_mut(ci);
                    session.send_message(NetworkMessageType::ReliableOrdered, message);
                    proof {
                        crate::sender::lemma_outbox_step(
                            *old(clients),
                            before,
                            *clients,
                            ci as int,
                        );
                        assert forall|j: int|
                            ci + 1 <= j < n implies #[trigger] clients.spec_players()[j] == old(
                            clients,
                        ).spec_players()[j] by {
                            assert(clients.spec_players()[j] == before.spec_players()[j]);
                        }
                    }
                }
                ci = ci + 1;
            }
        },
    }
}

/// Whether a merged entry is justified by the first `upto` events: it
/// restates the LAST event among them for its entity.
pub open spec fn merged_ok(
    clients: ClientsContainer,
    events: Seq<PlayerMoveEvent>,
    upto: int,
    entry: (u64, PlayerMoveEvent),
) -> bool {
    exists|j: int|
        0 <= j < upto && #[trigger] same_move(entry.1, events[j]) && attached_entity(
            clients,
            events[j].client_id,
        ) == Some(entry.0) && (forall|j2: int|
            j < j2 < upto ==> attached_entity(clients, (#[trigger] events[j2]).client_id)
                != Some(entry.0))
}

/// Whether two move events say the same thing: same sender, transform
/// and animation label.
pub open spec fn same_move(a: PlayerMoveEvent, b: PlayerMoveEvent) -> bool {
    &&& a.client_id == b.client_id
    &&& a.position == b.position
    &&& a.rotation == b.rotation
    &&& a.animation_state.label@ == b.animation_state.label@
}

/// Coalesces a tick's move events to one per entity: only the last event
/// of each attached player survives, since only the latest position
/// matters for chunk bookkeeping.
pub fn merge_move_events(clients: &ClientsContainer, events: &Vec<PlayerMoveEvent>) -> (r: Vec<
    (u64, PlayerMoveEvent),
>)
    requires
        clients.wf(),
    ensures
        forall|a: int, b: int| 0 <= a < b < r@.len() ==> (#[trigger] r@[a]).0 != (#[trigger] r@[b]).0,
        forall|k: int|
            0 <= k < r@.len() ==> merged_ok(
                *clients,
                events@,
                events@.len() as int,
                #[trigger] r@[k],
            ),
        forall|j: int|
            0 <= j < events@.len() && attached_entity(*clients, (#[trigger] events@[j]).client_id)
                is Some ==> exists|k: int|
                0 <= k < r@.len() && (#[trigger] r@[k]).0 == attached_entity(
                    *clients,
                    events@[j].client_id,
                )->0,
{
    let n = events.len();
    let mut out: Vec<(u64, PlayerMoveEvent)> = Vec::new();
    let mut i: usize = 0;
    while i < n
        invariant
            clients.wf(),
            n == events@.len(),
            i <= n,
            forall|a: int, b: int|
                0 <= a < b < out@.len() ==> (#[trigger] out@[a]).0 != (#[trigger] out@[b]).0,
            forall|k: int|
                0 <= k < out@.len() ==> merged_ok(*clients, events@, i as int, #[trigger] out@[k]),
            forall|j: int|
                0 <= j < i && attached_entity(*clients, (#[trigger] events@[j]).client_id)
                    is Some ==> exists|k: int|
                    0 <= k < out@.len() && (#[trigger] out@[k]).0 == attached_entity(
                        *clients,
                        events@[j].client_id,
                    )->0,
        decreases n - i,
    {
        let ev = &events[i];
        let entity_opt: Option<u64> = match clients.find_index(ev.client_id) {
            Some(ci) => {
                proof {
                    lemma_index_of_is(*clients, ev.client_id, ci as int);
                }
                match clients.index(ci).get_world_entity() {
                    Some(we) => Some(we.get_entity()),
                    None => None,
                }
            },
            None => None,
        };
        proof {
            assert(entity_opt == attached_entity(*clients, events@[i as int].client_id));
        }
        match entity_opt {
            Some(entity) => {
                let copy = PlayerMoveEvent {
                    client_id: ev.client_id,
                    position: ev.position,
                    rotation: ev.rotation,
                    animation_state: crate::messages::AnimationState {
                        label: clone_string(&ev.animation_state.label),
                    },
                };
                proof {
                    assert(same_move(copy, events@[i as int]));
                }
                let ghost before = out@;
                let pos_found = find_entity_entry(&out, entity);
                match pos_found {
                    Some(k) => {
                        out.set(k, (entity, copy));
                        proof {
                            assert(out@ == before.update(k as int, (entity, out@[k as int].1)));
                            assert(same_move(out@[k as int].1, events@[i as int]));
                            lemma_merge_step_replace(
                                *clients,
                                events@,
                                before,
                                out@,
                                i as int,
                                entity,
                            );
                        }
                    },
                    None => {
                        out.push((entity, copy));
                        proof {
                            assert(same_move(out@.last().1, events@[i as int]));
                            lemma_merge_step_push(
                                *clients,
                                events@,
                                before,
                                out@,
                                i as int,
                                entity,
                            );
                        }
                    },
                }
            },
            None => {},
        }
        i = i + 1;
    }
    out
}

/// The index of the merged entry for an entity, if one exists yet.
fn find_entity_entry(out: &Vec<(u64, PlayerMoveEvent)>, entity: u64) -> (r: Option<usize>)
    ensures
        match r {
            Some(k) => k < out@.len() && out@[k as int].0 == entity,
            None => forall|a: int| 0 <= a < out@.len() ==> (#[trigger] out@[a]).0 != entity,
        },
{
    let m = out.len();
    let mut k: usize = 0;
    while k < m
        invariant
            m == out@.len(),
            k <= m,
            forall|a: int| 0 <= a < k ==> (#[trigger] out@[a]).0 != entity,
        decreases m - k,
    {
        if out[k].0 == entity {
            return Some(k);
        }
        k = k + 1;
    }
    None
}

/// One merge step, replace case: overwriting the entity's merged
/// entry with its newest event keeps distinctness, freshness and
/// completeness.
proof fn lemma_merge_step_replace(
    clients: ClientsContainer,
    events: Seq<PlayerMoveEvent>,
    before: Seq<(u64, PlayerMoveEvent)>,
    after: Seq<(u64, PlayerMoveEvent)>,
    i: int,
    entity: u64,
)
    requires
        0 <= i < events.len(),
        attached_entity(clients, events[i].client_id) == Some(entity),
        forall|a: int, b: int|
            0 <= a < b < before.len() ==> (#[trigger] before[a]).0 != (#[trigger] before[b]).0,
        forall|k: int|
            0 <= k < before.len() ==> merged_ok(clients, events, i, #[trigger] before[k]),
        forall|j: int|
            0 <= j < i && attached_entity(clients, (#[trigger] events[j]).client_id) is Some
                ==> exists|k: int|
                0 <= k < before.len() && (#[trigger] before[k]).0 == attached_entity(
                    clients,
                    events[j].client_id,
                )->0,
        exists|a: int|
            0 <= a < before.len() && (#[trigger] before[a]).0 == entity && after
                == before.update(a, (entity, after[a].1)) && same_move(after[a].1, events[i]),
    ensures
        forall|a: int, b: int|
            0 <= a < b < after.len() ==> (#[trigger] after[a]).0 != (#[trigger] after[b]).0,
        forall|k: int|
            0 <= k < after.len() ==> merged_ok(clients, events, i + 1, #[trigger] after[k]),
        forall|j: int|
            0 <= j < i + 1 && attached_entity(clients, (#[trigger] events[j]).client_id) is Some
                ==> exists|k: int|
                0 <= k < after.len() && (#[trigger] after[k]).0 == attached_entity(
                    clients,
                    events[j].client_id,
                )->0,
{
    let a = choose|a: int|
        0 <= a < before.len() && (#[trigger] before[a]).0 == entity && after == before.update(
            a,
            (entity, after[a].1),
        ) && same_move(after[a].1, events[i]);
    assert forall|x: int, y: int|
        0 <= x < y < after.len() implies (#[trigger] after[x]).0 != (#[trigger] after[y]).0 by {
        assert(after[x].0 == before[x].0 && after[y].0 == before[y].0);
    }
    assert forall|k: int| 0 <= k < after.len() implies merged_ok(
        clients,
        events,
        i + 1,
        #[trigger] after[k],
    ) by {
        if k == a {
            assert(same_move(after[k].1, events[i]) && attached_entity(
                clients,
                events[i].client_id,
            ) == Some(after[k].0));
        } else {
            assert(after[k] == before[k]);
            assert(merged_ok(clients, events, i, before[k]));
            let j = choose|j: int|
                0 <= j < i && #[trigger] same_move(before[k].1, events[j]) && attached_entity(
                    clients,
                    events[j].client_id,
                ) == Some(before[k].0) && (forall|j2: int|
                    j < j2 < i ==> attached_entity(clients, (#[trigger] events[j2]).client_id)
                        != Some(before[k].0));
            assert(before[k].0 != entity) by {
                if k < a {
                    assert(before[k].0 != before[a].0);
                } else {
                    assert(before[a].0 != before[k].0);
                }
            };
            assert(0 <= j < i + 1 && same_move(after[k].1, events[j]) && attached_entity(
                clients,
                events[j].client_id,
            ) == Some(after[k].0) && (forall|j2: int|
                j < j2 < i + 1 ==> attached_entity(clients, (#[trigger] events[j2]).client_id)
                    != Some(after[k].0)));
        }
    }
    assert forall|j: int|
        0 <= j < i + 1 && attached_entity(clients, (#[trigger] events[j]).client_id)
            is Some implies exists|k: int|
        0 <= k < after.len() && (#[trigger] after[k]).0 == attached_entity(
            clients,
            events[j].client_id,
        )->0 by {
        if j < i {
            let k = choose|k: int|
                0 <= k < before.len() && (#[trigger] before[k]).0 == attached_entity(
                    clients,
                    events[j].client_id,
                )->0;
            assert(after[k].0 == before[k].0);
        } else {
            assert(after[a].0 == entity);
        }
    }
}

/// One merge step, append case: a first merged entry for the entity
/// keeps distinctness, freshness and completeness.
proof fn lemma_merge_step_push(
    clients: ClientsContainer,
    events: Seq<PlayerMoveEvent>,
    before: Seq<(u64, PlayerMoveEvent)>,
    after: Seq<(u64, PlayerMoveEvent)>,
    i: int,
    entity: u64,
)
    requires
        0 <= i < events.len(),
        attached_entity(clients, events[i].client_id) == Some(entity),
        forall|a: int, b: int|
            0 <= a < b < before.len() ==> (#[trigger] before[a]).0 != (#[trigger] before[b]).0,
        forall|k: int|
            0 <= k < before.len() ==> merged_ok(clients, events, i, #[trigger] before[k]),
        forall|j: int|
            0 <= j < i && attached_entity(clients, (#[trigger] events[j]).client_id) is Some
                ==> exists|k: int|
                0 <= k < before.len() && (#[trigger] before[k]).0 == attached_entity(
                    clients,
                    events[j].client_id,
                )->0,
        forall|a: int| 0 <= a < before.len() ==> (#[trigger] before[a]).0 != entity,
        after.len() == before.len() + 1,
        after == before.push(after.last()),
        after.last().0 == entity,
        same_move(after.last().1, events[i]),
    ensures
        forall|a: int, b: int|
            0 <= a < b < after.len() ==> (#[trigger] after[a]).0 != (#[trigger] after[b]).0,
        forall|k: int|
            0 <= k < after.len() ==> merged_ok(clients, events, i + 1, #[trigger] after[k]),
        forall|j: int|
            0 <= j < i + 1 && attached_entity(clients, (#[trigger] events[j]).client_id) is Some
                ==> exists|k: int|
                0 <= k < after.len() && (#[trigger] after[k]).0 == attached_entity(
                    clients,
                    events[j].client_id,
                )->0,
{
    assert forall|x: int, y: int|
        0 <= x < y < after.len() implies (#[trigger] after[x]).0 != (#[trigger] after[y]).0 by {
        if y == before.len() {
            assert(after[y].0 == entity && after[x].0 == before[x].0);
        } else {
            assert(after[x].0 == before[x].0 && after[y].0 == before[y].0);
        }
    }
    assert forall|k: int| 0 <= k < after.len() implies merged_ok(
        clients,
        events,
        i + 1,
        #[trigger] after[k],
    ) by {
        if k == before.len() {
            assert(same_move(after[k].1, events[i]) && attached_entity(
                clients,
                events[i].client_id,
            ) == Some(after[k].0));
        } else {
            assert(after[k] == before[k]);
            assert(merged_ok(clients, events, i, before[k]));
            let j = choose|j: int|
                0 <= j < i && #[trigger] same_move(before[k].1, events[j]) && attached_entity(
                    clients,
                    events[j].client_id,
                ) == Some(before[k].0) && (forall|j2: int|
                    j < j2 < i ==> attached_entity(clients, (#[trigger] events[j2]).client_id)
                        != Some(before[k].0));
            assert(before[k].0 != entity);
            assert(0 <= j < i + 1 && same_move(after[k].1, events[j]) && attached_entity(
                clients,
                events[j].client_id,
            ) == Some(after[k].0) && (forall|j2: int|
                j < j2 < i + 1 ==> attached_entity(clients, (#[trigger] events[j2]).client_id)
                    != Some(after[k].0)));
        }
    }
    assert forall|j: int|
        0 <= j < i + 1 && attached_entity(clients, (#[trigger] events[j]).client_id)
            is Some implies exists|k: int|
        0 <= k < after.len() && (#[trigger] after[k]).0 == attached_entity(
            clients,
            events[j].client_id,
        )->0 by {
        if j < i {
            let k = choose|k: int|
                0 <= k < before.len() && (#[trigger] before[k]).0 == attached_entity(
                    clients,
                    events[j].client_id,
                )->0;
            assert(after[k].0 == before[k].0);
        } else {
            assert(after[before.len() as int].0 == entity);
        }
    }
}

/// Whether a session's entity is another attached watcher of the mover's
/// old or new chunk in this world, so the move must be synchronized to
/// it.
pub open spec fn sync_target(
    world: crate::world::WorldManager,
    mover: u64,
    old_chunk: crate::positions::ChunkPosition,
    new_chunk: crate::positions::ChunkPosition,
    c: ClientNetwork,
) -> bool {
    match c.spec_world_entity() {
        Some(we) => we.spec_entity_id() != mover && we.spec_world_slug() == world.slug@ && ((
        world.chunks_map.watches(we.spec_entity_id(), new_chunk) && world.chunks_map.spec_entry(
            new_chunk,
        ).load_state is Loaded) || (world.chunks_map.watches(we.spec_entity_id(), old_chunk)
            && world.chunks_map.spec_entry(old_chunk).load_state is Loaded)),
        None => false,
    }
}

/// What one player's move leaves of one session: the mover's client is
/// told to unload exactly the abandoned chunks, which also leave its
/// sent set; every other attached watcher of the old or new chunk gets
/// the movement frame; nothing else of the session changes.
pub open spec fn moved_session_ok(
    world_new: crate::world::WorldManager,
    slug: Seq<char>,
    e: u64,
    old_chunk: crate::positions::ChunkPosition,
    new_chunk: crate::positions::ChunkPosition,
    crossing: bool,
    cid_opt: Option<u64>,
    position: crate::positions::Position,
    rotation: crate::positions::Rotation,
    label: Seq<char>,
    c_old: ClientNetwork,
    c_new: ClientNetwork,
) -> bool {
    let is_mover = crossing && (cid_opt matches Some(cid) && c_old.spec_client_id() == cid);
    let target = sync_target(world_new, e, old_chunk, new_chunk, c_old);
    &&& c_new == (ClientNetwork {
        outbox: c_new.outbox,
        already_sent: c_new.already_sent,
        ..c_old
    })
    &&& (is_mover ==> forall|q: crate::positions::ChunkPosition|
        #[trigger] c_new.spec_sent_contains(q) == (c_old.spec_sent_contains(q) && !(
        crate::positions::in_window(q, old_chunk, CHUNKS_DISTANCE as int)
            && !crate::positions::in_window(q, new_chunk, CHUNKS_DISTANCE as int))))
    &&& (!is_mover ==> c_new.already_sent == c_old.already_sent)
    &&& c_new.spec_outbox().len() == c_old.spec_outbox().len() + (if is_mover {
        1int
    } else {
        0int
    }) + (if target {
        1int
    } else {
        0int
    })
    &&& (forall|k: int|
        0 <= k < c_old.spec_outbox().len() ==> #[trigger] c_new.spec_outbox()[k]
            == c_old.spec_outbox()[k])
    &&& (is_mover ==> {
        let m = c_new.spec_outbox()[c_old.spec_outbox().len() as int];
        &&& m.0 is ReliableOrdered
        &&& m.1 matches ServerMessage::UnloadChunks { world_slug, chunks } && world_slug@ == slug
            && chunks@.no_duplicates() && (forall|q: crate::positions::ChunkPosition|
            #[trigger] chunks@.contains(q) == (crate::positions::in_window(
                q,
                old_chunk,
                CHUNKS_DISTANCE as int,
            ) && !crate::positions::in_window(q, new_chunk, CHUNKS_DISTANCE as int)))
    })
    &&& (target ==> {
        let m = c_new.spec_outbox().last();
        &&& m.0 is Unreliable
        &&& m.1 matches ServerMessage::EntityMove {
            entity_id,
            position: p2,
            rotation: r2,
            animation_state,
        } && entity_id == e && p2 == position && r2 == rotation && animation_state.label@ == label
    })
}

/// What the unload phase of one player's move leaves of one session:
/// the mover's client gains the unload envelope for exactly the
/// abandoned chunks, which also leave its sent set; everyone else is
/// untouched.
pub open spec fn unload_phase_ok(
    slug: Seq<char>,
    old_chunk: crate::positions::ChunkPosition,
    new_chunk: crate::positions::ChunkPosition,
    crossing: bool,
    cid_opt: Option<u64>,
    c_old: ClientNetwork,
    c_mid: ClientNetwork,
) -> bool {
    let is_mover = crossing && (cid_opt matches Some(cid) && c_old.spec_client_id() == cid);
    &&& c_mid == (ClientNetwork {
        outbox: c_mid.outbox,
        already_sent: c_mid.already_sent,
        ..c_old
    })
    &&& (is_mover ==> c_mid.spec_outbox().len() == c_old.spec_outbox().len() + 1 && (forall|
        k: int,
    |
        0 <= k < c_old.spec_outbox().len() ==> #[trigger] c_mid.spec_outbox()[k]
            == c_old.spec_outbox()[k]) && {
        let m = c_mid.spec_outbox().last();
        &&& m.0 is ReliableOrdered
        &&& m.1 matches ServerMessage::UnloadChunks { world_slug, chunks } && world_slug@ == slug
            && chunks@.no_duplicates() && (forall|q: crate::positions::ChunkPosition|
            #[trigger] chunks@.contains(q) == (crate::positions::in_window(
                q,
                old_chunk,
                CHUNKS_DISTANCE as int,
            ) && !crate::positions::in_window(q, new_chunk, CHUNKS_DISTANCE as int)))
    } && (forall|q: crate::positions::ChunkPosition|
        #[trigger] c_mid.spec_sent_contains(q) == (c_old.spec_sent_contains(q) && !(
        crate::positions::in_window(q, old_chunk, CHUNKS_DISTANCE as int)
            && !crate::positions::in_window(q, new_chunk, CHUNKS_DISTANCE as int)))))
    &&& (!is_mover ==> c_mid == c_old)
}

/// Applies one player's movement: the world records the transform; a
/// move across a chunk border shifts the watched window, tells the
/// client to unload the abandoned chunks (forgetting them server-side),
/// and the move is synchronized to every other attached client watching
/// the player's old or new chunk.
pub fn move_player(
    world: &mut crate::world::WorldManager,
    world_entity: &WorldEntity,
    position: crate::positions::Position,
    rotation: crate::positions::Rotation,
    animation_state: crate::messages::AnimationState,
    clients: &mut ClientsContainer,
)
    requires
        old(world).wf(),
        old(clients).wf(),
        crate::positions::position_in_bounds(position),
        old(world).ecs.has_entity(world_entity.spec_entity_id()),
    ensures
        final(world).wf(),
        final(clients).wf(),
        final(world).slug == old(world).slug,
        final(world).ecs.spec_record(world_entity.spec_entity_id()) == (
        crate::ecs::EntityRecord {
            position,
            rotation,
            ..old(world).ecs.spec_record(world_entity.spec_entity_id())
        }),
        forall|e2: u64| final(world).ecs.has_entity(e2) == old(world).ecs.has_entity(e2),
        forall|e2: u64|
            e2 != world_entity.spec_entity_id() && old(world).ecs.has_entity(e2)
                ==> final(world).ecs.spec_record(e2) == old(world).ecs.spec_record(e2),
        forall|q: crate::positions::ChunkPosition|
            #[trigger] crate::chunk_map::chunk_loaded_at(final(world).chunks_map, q)
                == crate::chunk_map::chunk_loaded_at(old(world).chunks_map, q),
        ({
            let e = world_entity.spec_entity_id();
            let old_chunk = old(world).ecs.spec_record(e).position.spec_chunk_position();
            let new_chunk = position.spec_chunk_position();
            let crossing = old_chunk != new_chunk;
            let cid_opt = old(world).ecs.spec_record(e).client_id;
            &&& (!crossing ==> final(world).chunks_map == old(world).chunks_map)
            &&& (crossing ==> forall|q: crate::positions::ChunkPosition|
                final(world).chunks_map.watches(e, q) == ((old(world).chunks_map.watches(e, q)
                    && !(crate::positions::in_window(q, old_chunk, CHUNKS_DISTANCE as int)
                    && !crate::positions::in_window(q, new_chunk, CHUNKS_DISTANCE as int))) || (
                crate::positions::in_window(q, new_chunk, CHUNKS_DISTANCE as int)
                    && !crate::positions::in_window(q, old_chunk, CHUNKS_DISTANCE as int))))
            &&& final(clients).spec_players().len() == old(clients).spec_players().len()
            &&& forall|i: int|
                0 <= i < old(clients).spec_players().len() ==> moved_session_ok(
                    *final(world),
                    old(world).slug@,
                    e,
                    old_chunk,
                    new_chunk,
                    crossing,
                    cid_opt,
                    position,
                    rotation,
                    animation_state.label@,
                    #[trigger] old(clients).spec_players()[i],
                    final(clients).spec_players()[i],
                )
        }),
{
    let ghost e = world_entity.spec_entity_id();
    let ghost w0 = *world;
    let client_id_opt = match world.get_ecs().get_entity(world_entity.get_entity()) {
        Some(rec) => rec.client_id,
        None => None,
    };
    let old_chunk;
    {
        let rec = match world.get_ecs().get_entity(world_entity.get_entity()) {
            Some(rec) => rec,
            None => {
                proof {
                    assert(false);
                }
                return ;
            },
        };
        let p = rec.position;
        proof {
            crate::world::lemma_chunk_of_bounded_position(p);
        }
        old_chunk = p.get_chunk_position();
    }
    let changed = world.player_move(world_entity, position, rotation);
    proof {
        crate::world::lemma_chunk_of_bounded_position(position);
    }
    let new_chunk = position.get_chunk_position();
    let ghost crossing = old_chunk != new_chunk;
    let ghost clients0 = *clients;
    match changed {
        Some(ch) => {
            proof {
                assert(crossing);
                assert forall|q: crate::positions::ChunkPosition|
                    world.chunks_map.watches(e, q) == ((w0.chunks_map.watches(e, q) && !(
                    crate::positions::in_window(q, old_chunk, CHUNKS_DISTANCE as int)
                        && !crate::positions::in_window(
                        q,
                        new_chunk,
                        CHUNKS_DISTANCE as int,
                    ))) || (crate::positions::in_window(q, new_chunk, CHUNKS_DISTANCE as int)
                    && !crate::positions::in_window(q, old_chunk, CHUNKS_DISTANCE as int))) by {
                    assert(ch.abandoned_chunks@.contains(q) == (crate::positions::in_window(
                        q,
                        old_chunk,
                        CHUNKS_DISTANCE as int,
                    ) && !crate::positions::in_window(q, new_chunk, CHUNKS_DISTANCE as int)));
                    assert(ch.new_chunks@.contains(q) == (crate::positions::in_window(
                        q,
                        new_chunk,
                        CHUNKS_DISTANCE as int,
                    ) && !crate::positions::in_window(q, old_chunk, CHUNKS_DISTANCE as int)));
                }
            }
            match client_id_opt {
                Some(client_id) => {
                    match clients.find_index(client_id) {
                        Some(ci) => {
                            let slug = clone_string(world.get_slug());
                            let mut abandoned: Vec<crate::positions::ChunkPosition> = Vec::new();
                            let mut ai: usize = 0;
                            let an = ch.abandoned_chunks.len();
                            while ai < an
                                invariant
                                    an == ch.abandoned_chunks@.len(),
                                    ai <= an,
                                    abandoned@ == ch.abandoned_chunks@.take(ai as int),
                                decreases an - ai,
                            {
                                abandoned.push(ch.abandoned_chunks[ai]);
                                proof {
                                    assert(abandoned@ =~= ch.abandoned_chunks@.take(
                                        ai as int + 1,
                                    ));
                                }
                                ai = ai + 1;
                            }
                            proof {
                                assert(ch.abandoned_chunks@.take(an as int)
                                    =~= ch.abandoned_chunks@);
                            }
                            let ghost before = *clients;
                            let session = clients.index_mut(ci);
                            session.send_chunks_to_unload(slug, abandoned);
                            proof {
                                lemma_session_update_wf(before, *clients, ci as int);
                                assert forall|i: int|
                                    0 <= i < clients0.spec_players().len() implies unload_phase_ok(
                                    w0.slug@,
                                    old_chunk,
                                    new_chunk,
                                    crossing,
                                    client_id_opt,
                                    #[trigger] clients0.spec_players()[i],
                                    clients.spec_players()[i],
                                ) by {
                                    if i == ci {
                                        assert(clients0.spec_players()[i].spec_client_id()
                                            == client_id);
                                    } else {
                                        assert(clients.spec_players()[i]
                                            == clients0.spec_players()[i]);
                                        if clients0.spec_players()[i].spec_client_id()
                                            == client_id {
                                            lemma_index_of_is(clients0, client_id, i);
                                            lemma_index_of_is(clients0, client_id, ci as int);
                                        }
                                    }
                                }
                            }
                        },
                        None => {
                            proof {
                                assert forall|i: int|
                                    0 <= i < clients0.spec_players().len() implies unload_phase_ok(
                                    w0.slug@,
                                    old_chunk,
                                    new_chunk,
                                    crossing,
                                    client_id_opt,
                                    #[trigger] clients0.spec_players()[i],
                                    clients.spec_players()[i],
                                ) by {
                                    assert(clients.spec_players()[i]
                                        == clients0.spec_players()[i]);
                                    if clients0.spec_players()[i].spec_client_id() == client_id {
                                        assert(clients0.spec_has_client(client_id));
                                    }
                                }
                            }
                        },
                    }
                },
                None => {
                    proof {
                        assert forall|i: int|
                            0 <= i < clients0.spec_players().len() implies unload_phase_ok(
                            w0.slug@,
                            old_chunk,
                            new_chunk,
                            crossing,
                            client_id_opt,
                            #[trigger] clients0.spec_players()[i],
                            clients.spec_players()[i],
                        ) by {}
                    }
                },
            }
        },
        None => {
            proof {
                assert(!crossing);
                assert forall|i: int|
                    0 <= i < clients0.spec_players().len() implies unload_phase_ok(
                    w0.slug@,
                    old_chunk,
                    new_chunk,
                    crossing,
                    client_id_opt,
                    #[trigger] clients0.spec_players()[i],
                    clients.spec_players()[i],
                ) by {}
            }
        },
    }
    let ghost s1 = *clients;
    let ghost world1 = *world;
    let ghost label0 = animation_state.label@;
    sync_player_move(
        world,
        world_entity,
        position,
        rotation,
        animation_state,
        &old_chunk,
        &new_chunk,
        clients,
    );
    proof {
        assert(*world == world1);
        assert forall|i: int| 0 <= i < clients0.spec_players().len() implies moved_session_ok(
            *world,
            w0.slug@,
            e,
            old_chunk,
            new_chunk,
            crossing,
            client_id_opt,
            position,
            rotation,
            label0,
            #[trigger] clients0.spec_players()[i],
            clients.spec_players()[i],
        ) by {
            let c_old = clients0.spec_players()[i];
            let c_mid = s1.spec_players()[i];
            let c_new = clients.spec_players()[i];
            assert(unload_phase_ok(
                w0.slug@,
                old_chunk,
                new_chunk,
                crossing,
                client_id_opt,
                c_old,
                c_mid,
            ));
            assert(c_mid.spec_world_entity() == c_old.spec_world_entity());
            assert(sync_target(*world, e, old_chunk, new_chunk, c_mid) == sync_target(
                *world,
                e,
                old_chunk,
                new_chunk,
                c_old,
            ));
        }
    }
}

/// Broadcasts a move to every other attached client whose entity watches
/// the mover's old or new chunk.
fn sync_player_move(
    world: &crate::world::WorldManager,
    world_entity: &WorldEntity,
    position: crate::positions::Position,
    rotation: crate::positions::Rotation,
    animation_state: crate::messages::AnimationState,
    old_chunk: &crate::positions::ChunkPosition,
    new_chunk: &crate::positions::ChunkPosition,
    clients: &mut ClientsContainer,
)
    requires
        world.wf(),
        old(clients).wf(),
    ensures
        final(clients).wf(),
        final_like_outbox(*old(clients), *final(clients)),
        forall|i: int|
            0 <= i < old(clients).spec_players().len() ==> {
                let c_old = #[trigger] old(clients).spec_players()[i];
                let c_new = final(clients).spec_players()[i];
                let target = sync_target(
                    *world,
                    world_entity.spec_entity_id(),
                    *old_chunk,
                    *new_chunk,
                    c_old,
                );
                &&& c_new == (ClientNetwork { outbox: c_new.outbox, ..c_old })
                &&& c_new.spec_outbox().len() == c_old.spec_outbox().len() + (if target {
                    1int
                } else {
                    0int
                })
                &&& (forall|k: int|
                    0 <= k < c_old.spec_outbox().len() ==> #[trigger] c_new.spec_outbox()[k]
                        == c_old.spec_outbox()[k])
                &&& (target ==> {
                    let m = c_new.spec_outbox().last();
                    &&& m.0 is Unreliable
                    &&& m.1 matches ServerMessage::EntityMove {
                        entity_id,
                        position: p2,
                        rotation: r2,
                        animation_state: a2,
                    } && entity_id == world_entity.spec_entity_id() && p2 == position && r2
                        == rotation && a2.label@ == animation_state.label@
                })
            },
{
    let n = clients.len();
    let mut ci: usize = 0;
    while ci < n
        invariant
            world.wf(),
            clients.wf(),
            n == clients.spec_players().len(),
            n == old(clients).spec_players().len(),
            ci <= n,
            final_like_outbox(*old(clients), *clients),
            forall|i: int|
                ci <= i < n ==> #[trigger] clients.spec_players()[i] == old(
                    clients,
                ).spec_players()[i],
            forall|i: int|
                0 <= i < ci ==> {
                    let c_old = #[trigger] old(clients).spec_players()[i];
                    let c_new = clients.spec_players()[i];
                    let target = sync_target(
                        *world,
                        world_entity.spec_entity_id(),
                        *old_chunk,
                        *new_chunk,
                        c_old,
                    );
                    &&& c_new == (ClientNetwork { outbox: c_new.outbox, ..c_old })
                    &&& c_new.spec_outbox().len() == c_old.spec_outbox().len() + (if target {
                        1int
                    } else {
                        0int
                    })
                    &&& (forall|k: int|
                        0 <= k < c_old.spec_outbox().len() ==> #[trigger] c_new.spec_outbox()[k]
                            == c_old.spec_outbox()[k])
                    &&& (target ==> {
                        let m = c_new.spec_outbox().last();
                        &&& m.0 is Unreliable
                        &&& m.1 matches ServerMessage::EntityMove {
                            entity_id,
                            position: p2,
                            rotation: r2,
                            animation_state: a2,
                        } && entity_id == world_entity.spec_entity_id() && p2 == position && r2
                            == rotation && a2.label@ == animation_state.label@
                    })
                },
        decreases n - ci,
    {
        let is_watcher = match clients.index(ci).get_world_entity() {
            Some(we) => {
                if we.get_entity() != world_entity.get_entity() && crate::strutil::string_eq(
                    we.get_world_slug(),
                    world.get_slug(),
                ) {
                    let e = we.get_entity();
                    world.get_chunks_map().is_watched_loaded(e, new_chunk)
                        || world.get_chunks_map().is_watched_loaded(e, old_chunk)
                } else {
                    false
                }
            },
            None => false,
        };
        proof {
            assert(is_watcher == sync_target(
                *world,
                world_entity.spec_entity_id(),
                *old_chunk,
                *new_chunk,
                old(clients).spec_players()[ci as int],
            ));
        }
        if is_watcher {
            let message = ServerMessage::EntityMove {
                entity_id: world_entity.get_entity(),
                position,
                rotation,
                animation_state: crate::messages::AnimationState {
                    label: clone_string(&animation_state.label),
                },
            };
            let ghost before = *clients;
            let session = clients.index_mut(ci);
            session.send_message(NetworkMessageType::Unreliable, message);
            proof {
                crate::sender::lemma_outbox_step(*old(clients), before, *clients, ci as int);
                assert forall|i: int|
                    ci + 1 <= i < n implies #[trigger] clients.spec_players()[i] == old(
                    clients,
                ).spec_players()[i] by {
                    assert(clients.spec_players()[i] == before.spec_players()[i]);
                }
            }
        }
        ci = ci + 1;
    }
}

/// The world index a client's attached session points at.
pub open spec fn attached_world_index(
    clients0: ClientsContainer,
    worlds0: WorldsManager,
    cid: u64,
) -> int {
    spec_world_index(
        worlds0,
        clients0.spec_players()[
            clients0.spec_index_of(cid)
        ].spec_world_entity()->0.spec_world_slug(),
    )
}

/// Whether a merged move survives to application: its sender is a
/// registered, attached session, the target is representable, the
/// attached world exists, the target chunk is loaded there and the
/// player's entity is resident.
pub open spec fn move_applies(
    clients0: ClientsContainer,
    worlds0: WorldsManager,
    entry: (u64, PlayerMoveEvent),
) -> bool {
    &&& clients0.spec_has_client(entry.1.client_id)
    &&& clients0.spec_players()[
        clients0.spec_index_of(entry.1.client_id)
    ].spec_world_entity() matches Some(we) && {
        &&& crate::positions::position_in_bounds(entry.1.position)
        &&& worlds0.spec_has_world(we.spec_world_slug())
        &&& crate::chunk_map::chunk_loaded_at(
            worlds0.worlds@[spec_world_index(worlds0, we.spec_world_slug())].chunks_map,
            entry.1.position.spec_chunk_position(),
        )
        &&& worlds0.worlds@[spec_world_index(worlds0, we.spec_world_slug())].ecs.has_entity(
            entry.0,
        )
    }
}

/// Whether some merged entry applies a move to this entity in this
/// world.
pub open spec fn some_move_applied(
    clients0: ClientsContainer,
    worlds0: WorldsManager,
    merged: Seq<(u64, PlayerMoveEvent)>,
    wi: int,
    ent: u64,
) -> bool {
    exists|k: int|
        0 <= k < merged.len() && (#[trigger] merged[k]).0 == ent && move_applies(
            clients0,
            worlds0,
            merged[k],
        ) && attached_world_index(clients0, worlds0, merged[k].1.client_id) == wi
}

/// Whether a record is the old one with an applying merged entry's
/// transform installed.
pub open spec fn applied_record_ok(
    clients0: ClientsContainer,
    worlds0: WorldsManager,
    merged: Seq<(u64, PlayerMoveEvent)>,
    wi: int,
    ent: u64,
    rec0: crate::ecs::EntityRecord,
    rec1: crate::ecs::EntityRecord,
) -> bool {
    exists|k: int|
        0 <= k < merged.len() && (#[trigger] merged[k]).0 == ent && move_applies(
            clients0,
            worlds0,
            merged[k],
        ) && attached_world_index(clients0, worlds0, merged[k].1.client_id) == wi && rec1 == (
        crate::ecs::EntityRecord {
            position: merged[k].1.position,
            rotation: merged[k].1.rotation,
            ..rec0
        })
}

/// What the tick's moves leave of one entity of one world: its record
/// gains exactly the transform of the one applying merged entry for it,
/// or stands untouched; residency never changes here.
pub open spec fn tick_entity_ok(
    clients0: ClientsContainer,
    worlds0: WorldsManager,
    worlds1: WorldsManager,
    merged: Seq<(u64, PlayerMoveEvent)>,
    wi: int,
    ent: u64,
) -> bool {
    &&& worlds1.worlds@[wi].ecs.has_entity(ent) == worlds0.worlds@[wi].ecs.has_entity(ent)
    &&& (worlds0.worlds@[wi].ecs.has_entity(ent) ==> {
        let rec0 = worlds0.worlds@[wi].ecs.spec_record(ent);
        let rec1 = worlds1.worlds@[wi].ecs.spec_record(ent);
        if some_move_applied(clients0, worlds0, merged, wi, ent) {
            applied_record_ok(clients0, worlds0, merged, wi, ent, rec0, rec1)
        } else {
            rec1 == rec0
        }
    })
}

/// A merged entry that does not survive leaves every entity's outcome
/// standing when the prefix grows past it.
proof fn lemma_tick_skip_step(
    clients0: ClientsContainer,
    worlds0: WorldsManager,
    worlds_cur: WorldsManager,
    merged: Seq<(u64, PlayerMoveEvent)>,
    mi: int,
)
    requires
        0 <= mi < merged.len(),
        !move_applies(clients0, worlds0, merged[mi]),
        forall|wi: int, ent: u64|
            0 <= wi < worlds0.worlds@.len() ==> #[trigger] tick_entity_ok(
                clients0,
                worlds0,
                worlds_cur,
                merged.take(mi),
                wi,
                ent,
            ),
    ensures
        forall|wi: int, ent: u64|
            0 <= wi < worlds0.worlds@.len() ==> #[trigger] tick_entity_ok(
                clients0,
                worlds0,
                worlds_cur,
                merged.take(mi + 1),
                wi,
                ent,
            ),
{
    assert forall|wi: int, ent: u64| 0 <= wi < worlds0.worlds@.len() implies #[trigger] tick_entity_ok(
        clients0,
        worlds0,
        worlds_cur,
        merged.take(mi + 1),
        wi,
        ent,
    ) by {
        assert(tick_entity_ok(clients0, worlds0, worlds_cur, merged.take(mi), wi, ent));
        lemma_some_applied_step(clients0, worlds0, merged, mi, wi, ent);
        if some_move_applied(clients0, worlds0, merged.take(mi), wi, ent)
            && worlds0.worlds@[wi].ecs.has_entity(ent) {
            let rec0 = worlds0.worlds@[wi].ecs.spec_record(ent);
            let rec1 = worlds_cur.worlds@[wi].ecs.spec_record(ent);
            let k = choose|k: int|
                0 <= k < merged.take(mi).len() && (#[trigger] merged.take(mi)[k]).0 == ent
                    && move_applies(clients0, worlds0, merged.take(mi)[k])
                    && attached_world_index(clients0, worlds0, merged.take(mi)[k].1.client_id)
                    == wi && rec1 == (crate::ecs::EntityRecord {
                    position: merged.take(mi)[k].1.position,
                    rotation: merged.take(mi)[k].1.rotation,
                    ..rec0
                });
            assert(merged.take(mi + 1)[k] == merged.take(mi)[k]);
        }
    }
}

/// Growing a merged prefix past an entry changes which entities have an
/// applying move only by that entry.
proof fn lemma_some_applied_step(
    clients0: ClientsContainer,
    worlds0: WorldsManager,
    merged: Seq<(u64, PlayerMoveEvent)>,
    mi: int,
    wi: int,
    ent: u64,
)
    requires
        0 <= mi < merged.len(),
    ensures
        some_move_applied(clients0, worlds0, merged.take(mi + 1), wi, ent) == (some_move_applied(
            clients0,
            worlds0,
            merged.take(mi),
            wi,
            ent,
        ) || (merged[mi].0 == ent && move_applies(clients0, worlds0, merged[mi])
            && attached_world_index(clients0, worlds0, merged[mi].1.client_id) == wi)),
{
    let pre = merged.take(mi);
    let pre1 = merged.take(mi + 1);
    if some_move_applied(clients0, worlds0, pre1, wi, ent) {
        let k = choose|k: int|
            0 <= k < pre1.len() && (#[trigger] pre1[k]).0 == ent && move_applies(
                clients0,
                worlds0,
                pre1[k],
            ) && attached_world_index(clients0, worlds0, pre1[k].1.client_id) == wi;
        if k < mi {
            assert(pre[k] == pre1[k]);
        } else {
            assert(pre1[k] == merged[mi]);
        }
    }
    if some_move_applied(clients0, worlds0, pre, wi, ent) {
        let k = choose|k: int|
            0 <= k < pre.len() && (#[trigger] pre[k]).0 == ent && move_applies(
                clients0,
                worlds0,
                pre[k],
            ) && attached_world_index(clients0, worlds0, pre[k].1.client_id) == wi;
        assert(pre1[k] == pre[k]);
    }
    if merged[mi].0 == ent && move_applies(clients0, worlds0, merged[mi])
        && attached_world_index(clients0, worlds0, merged[mi].1.client_id) == wi {
        assert(pre1[mi] == merged[mi]);
    }
}

/// An applying merged entry updates exactly its entity's record in its
/// world when the prefix grows past it.
proof fn lemma_tick_apply_step(
    clients0: ClientsContainer,
    worlds0: WorldsManager,
    before: WorldsManager,
    after: WorldsManager,
    merged: Seq<(u64, PlayerMoveEvent)>,
    mi: int,
    wi: int,
)
    requires
        0 <= mi < merged.len(),
        forall|a: int, b: int|
            0 <= a < b < merged.len() ==> (#[trigger] merged[a]).0 != (#[trigger] merged[b]).0,
        move_applies(clients0, worlds0, merged[mi]),
        attached_world_index(clients0, worlds0, merged[mi].1.client_id) == wi,
        0 <= wi < worlds0.worlds@.len(),
        before.worlds@.len() == worlds0.worlds@.len(),
        after.worlds@.len() == worlds0.worlds@.len(),
        forall|j: int|
            0 <= j < worlds0.worlds@.len() && j != wi ==> #[trigger] after.worlds@[j]
                == before.worlds@[j],
        forall|e2: u64|
            #[trigger] after.worlds@[wi].ecs.has_entity(e2) == before.worlds@[wi].ecs.has_entity(
                e2,
            ),
        after.worlds@[wi].ecs.spec_record(merged[mi].0) == (crate::ecs::EntityRecord {
            position: merged[mi].1.position,
            rotation: merged[mi].1.rotation,
            ..before.worlds@[wi].ecs.spec_record(merged[mi].0)
        }),
        forall|e2: u64|
            e2 != merged[mi].0 && before.worlds@[wi].ecs.has_entity(e2)
                ==> #[trigger] after.worlds@[wi].ecs.spec_record(e2) == before.worlds@[
                wi
            ].ecs.spec_record(e2),
        forall|w2: int, ent: u64|
            0 <= w2 < worlds0.worlds@.len() ==> #[trigger] tick_entity_ok(
                clients0,
                worlds0,
                before,
                merged.take(mi),
                w2,
                ent,
            ),
    ensures
        forall|w2: int, ent: u64|
            0 <= w2 < worlds0.worlds@.len() ==> #[trigger] tick_entity_ok(
                clients0,
                worlds0,
                after,
                merged.take(mi + 1),
                w2,
                ent,
            ),
{
    assert forall|w2: int, ent: u64|
        0 <= w2 < worlds0.worlds@.len() implies #[trigger] tick_entity_ok(
        clients0,
        worlds0,
        after,
        merged.take(mi + 1),
        w2,
        ent,
    ) by {
        assert(tick_entity_ok(clients0, worlds0, before, merged.take(mi), w2, ent));
        lemma_some_applied_step(clients0, worlds0, merged, mi, w2, ent);
        if w2 == wi && ent == merged[mi].0 {
            assert(!some_move_applied(clients0, worlds0, merged.take(mi), w2, ent)) by {
                if some_move_applied(clients0, worlds0, merged.take(mi), w2, ent) {
                    let k = choose|k: int|
                        0 <= k < merged.take(mi).len() && (#[trigger] merged.take(mi)[k]).0
                            == ent && move_applies(clients0, worlds0, merged.take(mi)[k])
                            && attached_world_index(
                            clients0,
                            worlds0,
                            merged.take(mi)[k].1.client_id,
                        ) == w2;
                    assert(merged[k].0 == merged[mi].0);
                }
            };
            assert(worlds0.worlds@[wi].ecs.has_entity(ent));
            assert(before.worlds@[wi].ecs.spec_record(ent) == worlds0.worlds@[
                wi
            ].ecs.spec_record(ent));
            assert(merged.take(mi + 1)[mi] == merged[mi]);
            assert(some_move_applied(clients0, worlds0, merged.take(mi + 1), w2, ent));
            assert(applied_record_ok(
                clients0,
                worlds0,
                merged.take(mi + 1),
                w2,
                ent,
                worlds0.worlds@[w2].ecs.spec_record(ent),
                after.worlds@[w2].ecs.spec_record(ent),
            ));
        } else {
            assert(after.worlds@[w2].ecs.has_entity(ent) == before.worlds@[
                w2
            ].ecs.has_entity(ent)) by {
                if w2 != wi {
                    assert(after.worlds@[w2] == before.worlds@[w2]);
                }
            };
            if worlds0.worlds@[w2].ecs.has_entity(ent) {
                assert(after.worlds@[w2].ecs.spec_record(ent) == before.worlds@[
                    w2
                ].ecs.spec_record(ent)) by {
                    if w2 != wi {
                        assert(after.worlds@[w2] == before.worlds@[w2]);
                    } else {
                        assert(ent != merged[mi].0);
                        assert(before.worlds@[wi].ecs.has_entity(ent));
                    }
                };
                assert(!(merged[mi].0 == ent && move_applies(clients0, worlds0, merged[mi])
                    && attached_world_index(clients0, worlds0, merged[mi].1.client_id) == w2))
                    by {
                    if merged[mi].0 == ent {
                        assert(w2 != wi ==> attached_world_index(
                            clients0,
                            worlds0,
                            merged[mi].1.client_id,
                        ) != w2);
                        assert(w2 == wi ==> ent != merged[mi].0);
                    }
                };
                if some_move_applied(clients0, worlds0, merged.take(mi), w2, ent) {
                    let rec0 = worlds0.worlds@[w2].ecs.spec_record(ent);
                    let rec1 = before.worlds@[w2].ecs.spec_record(ent);
                    let k = choose|k: int|
                        0 <= k < merged.take(mi).len() && (#[trigger] merged.take(mi)[k]).0
                            == ent && move_applies(clients0, worlds0, merged.take(mi)[k])
                            && attached_world_index(
                            clients0,
                            worlds0,
                            merged.take(mi)[k].1.client_id,
                        ) == w2 && rec1 == (crate::ecs::EntityRecord {
                            position: merged.take(mi)[k].1.position,
                            rotation: merged.take(mi)[k].1.rotation,
                            ..rec0
                        });
                    assert(merged.take(mi + 1)[k] == merged.take(mi)[k]);
                }
            }
        }
    }
}

/// Handles a tick's move events: they are merged to the last one per
/// attached player, and each surviving move — one whose sender is still
/// attached and whose target chunk is loaded — is applied exactly once,
/// with the last event's transform; every other record stands, and
/// sessions change only in their outboxes and sent sets. The merged
/// batch is returned for the caller's reasoning.
#[verifier::rlimit(100)]
pub fn on_player_move(
    clients: &mut ClientsContainer,
    worlds: &mut WorldsManager,
    events: Vec<PlayerMoveEvent>,
) -> (merged: Ghost<Seq<(u64, PlayerMoveEvent)>>)
    requires
        old(clients).wf(),
        old(worlds).wf(),
    ensures
        final(clients).wf(),
        final(worlds).wf(),
        forall|a: int, b: int|
            0 <= a < b < merged@.len() ==> (#[trigger] merged@[a]).0 != (#[trigger] merged@[b]).0,
        forall|k: int|
            0 <= k < merged@.len() ==> merged_ok(
                *old(clients),
                events@,
                events@.len() as int,
                #[trigger] merged@[k],
            ),
        forall|j: int|
            0 <= j < events@.len() && attached_entity(
                *old(clients),
                (#[trigger] events@[j]).client_id,
            ) is Some ==> exists|k: int|
                0 <= k < merged@.len() && (#[trigger] merged@[k]).0 == attached_entity(
                    *old(clients),
                    events@[j].client_id,
                )->0,
        final(clients).spec_players().len() == old(clients).spec_players().len(),
        forall|i: int|
            0 <= i < old(clients).spec_players().len() ==> {
                let c_new = #[trigger] final(clients).spec_players()[i];
                c_new == (ClientNetwork {
                    outbox: c_new.outbox,
                    already_sent: c_new.already_sent,
                    ..old(clients).spec_players()[i]
                })
            },
        final(worlds).worlds@.len() == old(worlds).worlds@.len(),
        forall|wi: int|
            0 <= wi < old(worlds).worlds@.len() ==> (#[trigger] final(worlds).worlds@[wi]).slug
                == old(worlds).worlds@[wi].slug,
        forall|wi: int, ent: u64|
            0 <= wi < old(worlds).worlds@.len() ==> #[trigger] tick_entity_ok(
                *old(clients),
                *old(worlds),
                *final(worlds),
                merged@,
                wi,
                ent,
            ),
{
    let ghost clients0 = *old(clients);
    let ghost worlds0 = *old(worlds);
    let merged = merge_move_events(clients, &events);
    proof {
        assert(merged@.take(0) =~= Seq::<(u64, PlayerMoveEvent)>::empty());
    }
    let mut mi: usize = 0;
    let mn = merged.len();
    while mi < mn
        invariant
            clients.wf(),
            worlds.wf(),
            clients0.wf(),
            worlds0.wf(),
            clients0 == *old(clients),
            worlds0 == *old(worlds),
            mn == merged@.len(),
            mi <= mn,
            forall|a: int, b: int|
                0 <= a < b < merged@.len() ==> (#[trigger] merged@[a]).0 != (
                #[trigger] merged@[b]).0,
            forall|k: int|
                0 <= k < merged@.len() ==> merged_ok(
                    clients0,
                    events@,
                    events@.len() as int,
                    #[trigger] merged@[k],
                ),
            forall|j: int|
                0 <= j < events@.len() && attached_entity(
                    clients0,
                    (#[trigger] events@[j]).client_id,
                ) is Some ==> exists|k: int|
                    0 <= k < merged@.len() && (#[trigger] merged@[k]).0 == attached_entity(
                        clients0,
                        events@[j].client_id,
                    )->0,
            clients.spec_players().len() == clients0.spec_players().len(),
            forall|i: int|
                0 <= i < clients0.spec_players().len() ==> {
                    let c_new = #[trigger] clients.spec_players()[i];
                    c_new == (ClientNetwork {
                        outbox: c_new.outbox,
                        already_sent: c_new.already_sent,
                        ..clients0.spec_players()[i]
                    })
                },
            worlds.worlds@.len() == worlds0.worlds@.len(),
            forall|wi: int|
                0 <= wi < worlds0.worlds@.len() ==> (#[trigger] worlds.worlds@[wi]).slug
                    == worlds0.worlds@[wi].slug,
            forall|wi: int, q: crate::positions::ChunkPosition|
                0 <= wi < worlds0.worlds@.len() ==> #[trigger] crate::chunk_map::chunk_loaded_at(
                    worlds.worlds@[wi].chunks_map,
                    q,
                ) == crate::chunk_map::chunk_loaded_at(worlds0.worlds@[wi].chunks_map, q),
            forall|wi: int, ent: u64|
                0 <= wi < worlds0.worlds@.len() ==> #[trigger] tick_entity_ok(
                    clients0,
                    worlds0,
                    *worlds,
                    merged@.take(mi as int),
                    wi,
                    ent,
                ),
        decreases mn - mi,
    {
        let ghost entry = merged@[mi as int];
        let entity = merged[mi].0;
        let ev = &merged[mi].1;
        let slug_opt = match clients.find_index(ev.client_id) {
            Some(ci) => {
                proof {
                    assert(clients0.spec_players()[ci as int].spec_client_id() == ev.client_id);
                    lemma_index_of_is(clients0, ev.client_id, ci as int);
                }
                match clients.index(ci).get_world_entity() {
                    Some(we) => Some(clone_string(we.get_world_slug())),
                    None => {
                        proof {
                            assert(clients.spec_players()[ci as int].spec_world_entity()
                                == clients0.spec_players()[ci as int].spec_world_entity());
                            assert(!move_applies(clients0, worlds0, entry));
                        }
                        None
                    },
                }
            },
            None => {
                proof {
                    assert(!move_applies(clients0, worlds0, entry)) by {
                        if clients0.spec_has_client(ev.client_id) {
                            let j = clients0.spec_index_of(ev.client_id);
                            assert(clients.spec_players()[j].spec_client_id() == ev.client_id);
                        }
                    };
                }
                None
            },
        };
        let in_bounds = ev.position.x_milli >= -crate::positions::COORD_LIMIT
            && ev.position.x_milli <= crate::positions::COORD_LIMIT && ev.position.y_milli
            >= -crate::positions::COORD_LIMIT && ev.position.y_milli
            <= crate::positions::COORD_LIMIT && ev.position.z_milli
            >= -crate::positions::COORD_LIMIT && ev.position.z_milli
            <= crate::positions::COORD_LIMIT;
        let mut applied = false;
        match slug_opt {
            Some(slug) => {
                if in_bounds {
                    match worlds.find_world(&slug) {
                        Some(wi) => {
                            proof {
                                crate::world::lemma_chunk_of_bounded_position(ev.position);
                                assert(worlds0.worlds@[wi as int].slug@ == slug@);
                                lemma_world_index_is(worlds0, slug@, wi as int);
                            }
                            let target_chunk = ev.position.get_chunk_position();
                            let ready = worlds.index(wi).get_chunks_map().is_chunk_loaded(
                                &target_chunk,
                            ) && worlds.index(wi).get_ecs().get_entity(entity).is_some();
                            if ready {
                                proof {
                                    assert(crate::chunk_map::chunk_loaded_at(
                                        worlds.worlds@[wi as int].chunks_map,
                                        target_chunk,
                                    ));
                                    assert(tick_entity_ok(
                                        clients0,
                                        worlds0,
                                        *worlds,
                                        merged@.take(mi as int),
                                        wi as int,
                                        entity,
                                    ));
                                    assert(move_applies(clients0, worlds0, entry));
                                    assert(attached_world_index(
                                        clients0,
                                        worlds0,
                                        entry.1.client_id,
                                    ) == wi as int);
                                }
                                let ghost worlds_before = *worlds;
                                let ghost clients_before = *clients;
                                let world = worlds.index_mut(wi);
                                let world_entity = WorldEntity::new(
                                    clone_string(&slug),
                                    entity,
                                );
                                move_player(
                                    world,
                                    &world_entity,
                                    ev.position,
                                    ev.rotation,
                                    crate::messages::AnimationState {
                                        label: clone_string(&ev.animation_state.label),
                                    },
                                    clients,
                                );
                                applied = true;
                                proof {
                                    lemma_world_update_wf(worlds_before, *worlds, wi as int);
                                    lemma_tick_apply_step(
                                        clients0,
                                        worlds0,
                                        worlds_before,
                                        *worlds,
                                        merged@,
                                        mi as int,
                                        wi as int,
                                    );
                                    assert forall|i: int|
                                        0 <= i < clients0.spec_players().len() implies {
                                        let c_new = #[trigger] clients.spec_players()[i];
                                        c_new == (ClientNetwork {
                                            outbox: c_new.outbox,
                                            already_sent: c_new.already_sent,
                                            ..clients0.spec_players()[i]
                                        })
                                    } by {
                                        assert(moved_session_ok(
                                            worlds.worlds@[wi as int],
                                            worlds_before.worlds@[wi as int].slug@,
                                            entity,
                                            worlds_before.worlds@[
                                                wi as int
                                            ].ecs.spec_record(entity).position.spec_chunk_position(),
                                            ev.position.spec_chunk_position(),
                                            worlds_before.worlds@[
                                                wi as int
                                            ].ecs.spec_record(entity).position.spec_chunk_position()
                                                != ev.position.spec_chunk_position(),
                                            worlds_before.worlds@[
                                                wi as int
                                            ].ecs.spec_record(entity).client_id,
                                            ev.position,
                                            ev.rotation,
                                            ev.animation_state.label@,
                                            clients_before.spec_players()[i],
                                            clients.spec_players()[i],
                                        ));
                                    }
                                }
                            } else {
                                proof {
                                    assert(!move_applies(clients0, worlds0, entry)) by {
                                        if move_applies(clients0, worlds0, entry) {
                                            assert(tick_entity_ok(
                                                clients0,
                                                worlds0,
                                                *worlds,
                                                merged@.take(mi as int),
                                                wi as int,
                                                entity,
                                            ));
                                            assert(crate::chunk_map::chunk_loaded_at(
                                                worlds.worlds@[wi as int].chunks_map,
                                                target_chunk,
                                            ) == crate::chunk_map::chunk_loaded_at(
                                                worlds0.worlds@[wi as int].chunks_map,
                                                target_chunk,
                                            ));
                                        }
                                    };
                                }
                            }
                        },
                        None => {
                            proof {
                                assert(!move_applies(clients0, worlds0, entry)) by {
                                    if worlds0.spec_has_world(slug@) {
                                        let j = spec_world_index(worlds0, slug@);
                                        assert(worlds.worlds@[j].slug@ == slug@);
                                        assert(worlds.spec_has_world(slug@));
                                    }
                                };
                            }
                        },
                    }
                } else {
                    proof {
                        assert(!move_applies(clients0, worlds0, entry));
                    }
                }
            },
            None => {},
        }
        proof {
            if !applied {
                lemma_tick_skip_step(clients0, worlds0, *worlds, merged@, mi as int);
            }
        }
        mi = mi + 1;
    }
    proof {
        assert(merged@.take(mn as int) =~= merged@);
    }
    Ghost(merged@)
}

/// Broadcasts the tick rate to every connected client once per second,
/// when the counter has a fresh value and the launch flags ask for it.
pub fn tps_broadcast(clients: &mut ClientsContainer, counter: &mut TpsCounter, send_tps: bool)
    requires
        old(clients).wf(),
    ensures
        final(clients).wf(),
        final_like_outbox(*old(clients), *final(clients)),
        !final(counter).tps_updated,
        *final(counter) == (TpsCounter { tps_updated: false, ..*old(counter) }),
        (!old(counter).tps_updated || !send_tps) ==> *final(clients) == *old(clients),
        (old(counter).tps_updated && send_tps) ==> forall|i: int|
            0 <= i < old(clients).spec_players().len() ==> {
                let c_old = #[trigger] old(clients).spec_players()[i];
                let c_new = final(clients).spec_players()[i];
                c_new.spec_outbox() == if c_old.spec_connected() {
                    c_old.spec_outbox().push(
                        (
                            NetworkMessageType::Unreliable,
                            ServerMessage::ServerStatus { tps: old(counter).tps },
                        ),
                    )
                } else {
                    c_old.spec_outbox()
                }
            },
{
    let fresh = counter.tps_updated;
    counter.tps_updated = false;
    if !fresh || !send_tps {
        return ;
    }
    let tps = counter.get_tps();
    let n = clients.len();
    let mut ci: usize = 0;
    while ci < n
        invariant
            clients.wf(),
            n == clients.spec_players().len(),
            n == old(clients).spec_players().len(),
            ci <= n,
            tps == old(counter).tps,
            final_like_outbox(*old(clients), *clients),
            forall|j: int|
                0 <= j < ci ==> {
                    let c_old = #[trigger] old(clients).spec_players()[j];
                    let c_new = clients.spec_players()[j];
                    c_new.spec_outbox() == if c_old.spec_connected() {
                        c_old.spec_outbox().push(
                            (
                                NetworkMessageType::Unreliable,
                                ServerMessage::ServerStatus { tps: old(counter).tps },
                            ),
                        )
                    } else {
                        c_old.spec_outbox()
                    }
                },
            forall|j: int|
                ci <= j < n ==> #[trigger] clients.spec_players()[j] == old(
                    clients,
                ).spec_players()[j],
        decreases n - ci,
    {
        if clients.index(ci).is_connected() {
            let ghost before = *clients;
            let session = clients.index_mut(ci);
            session.send_message(
                NetworkMessageType::Unreliable,
                ServerMessage::ServerStatus { tps },
            );
            proof {
                crate::sender::lemma_outbox_step(*old(clients), before, *clients, ci as int);
                assert forall|j: int|
                    ci + 1 <= j < n implies #[trigger] clients.spec_players()[j] == old(
                    clients,
                ).spec_players()[j] by {
                    assert(clients.spec_players()[j] == before.spec_players()[j]);
                }
            }
        }
        ci = ci + 1;
    }
}

/// Whether a connected session is attached to this entity.
pub open spec fn entity_client_connected(clients: ClientsContainer, entity: u64) -> bool {
    exists|i: int|
        0 <= i < clients.spec_players().len() && (#[trigger] clients.spec_players()[
            i
        ]).spec_connected() && match clients.spec_players()[i].spec_world_entity() {
            Some(we) => we.spec_entity_id() == entity,
            None => false,
        }
}

/// Whether this entity stands in one of this world's freshly loaded
/// chunks.
pub open spec fn entity_in_loaded_chunk(worlds0: WorldsManager, wi: int, e: u64) -> bool {
    &&& worlds0.worlds@[wi].ecs.has_entity(e)
    &&& worlds0.worlds@[wi].chunks_map.loaded_queue@.contains(
        worlds0.worlds@[wi].ecs.spec_record(e).position.spec_chunk_position(),
    )
}

/// Whether a spawn notice is justified: some world carries its slug, and
/// its entity stands in a freshly loaded chunk there with a connected
/// session attached.
pub open spec fn spawn_notice_due(
    worlds0: WorldsManager,
    clients: ClientsContainer,
    we: WorldEntity,
) -> bool {
    exists|wi: int|
        0 <= wi < worlds0.worlds@.len() && (#[trigger] worlds0.worlds@[wi]).slug@
            == we.spec_world_slug() && entity_in_loaded_chunk(worlds0, wi, we.spec_entity_id())
            && entity_client_connected(clients, we.spec_entity_id())
}

/// Whether the notice list names this slug and entity.
pub open spec fn notice_in(r: Seq<WorldEntity>, slug: Seq<char>, e: u64) -> bool {
    exists|k: int|
        0 <= k < r.len() && (#[trigger] r[k]).spec_world_slug() == slug && r[k].spec_entity_id()
            == e
}

/// Drains every world's loaded-chunk notices: the result holds a spawn
/// notice for exactly the client-connected entities standing in each
/// drained chunk, so the world can be presented to the player once the
/// ground exists; entities without a connected session are skipped.
pub fn on_chunk_loaded(worlds: &mut WorldsManager, clients: &ClientsContainer) -> (r: Vec<
    WorldEntity,
>)
    requires
        old(worlds).wf(),
        clients.wf(),
    ensures
        final(worlds).wf(),
        forall|wi: int|
            0 <= wi < final(worlds).worlds@.len()
                ==> (#[trigger] final(worlds).worlds@[wi]).chunks_map.loaded_queue@.len() == 0,
        final(worlds).worlds@.len() == old(worlds).worlds@.len(),
        forall|wi: int|
            0 <= wi < old(worlds).worlds@.len() ==> (#[trigger] final(worlds).worlds@[wi]).slug
                == old(worlds).worlds@[wi].slug && final(worlds).worlds@[wi].ecs == old(
                worlds,
            ).worlds@[wi].ecs,
        forall|k: int|
            0 <= k < r@.len() ==> spawn_notice_due(*old(worlds), *clients, #[trigger] r@[k]),
        forall|wi: int, e: u64|
            0 <= wi < old(worlds).worlds@.len() && #[trigger] entity_in_loaded_chunk(
                *old(worlds),
                wi,
                e,
            ) && entity_client_connected(*clients, e) ==> notice_in(
                r@,
                old(worlds).worlds@[wi].slug@,
                e,
            ),
{
    let ghost worlds0 = *old(worlds);
    let mut notices: Vec<WorldEntity> = Vec::new();
    let n = worlds.count();
    let mut wi: usize = 0;
    while wi < n
        invariant
            worlds.wf(),
            clients.wf(),
            worlds0 == *old(worlds),
            n == worlds.worlds@.len(),
            wi <= n,
            n == worlds0.worlds@.len(),
            forall|j: int|
                0 <= j < wi ==> (#[trigger] worlds.worlds@[j]).chunks_map.loaded_queue@.len()
                    == 0,
            forall|j: int|
                0 <= j < n ==> (#[trigger] worlds.worlds@[j]).slug == worlds0.worlds@[j].slug
                    && worlds.worlds@[j].ecs == worlds0.worlds@[j].ecs,
            forall|j: int| wi <= j < n ==> #[trigger] worlds.worlds@[j] == worlds0.worlds@[j],
            forall|k: int|
                0 <= k < notices@.len() ==> spawn_notice_due(
                    worlds0,
                    *clients,
                    #[trigger] notices@[k],
                ),
            forall|j: int, e: u64|
                0 <= j < wi && #[trigger] entity_in_loaded_chunk(worlds0, j, e)
                    && entity_client_connected(*clients, e) ==> notice_in(
                    notices@,
                    worlds0.worlds@[j].slug@,
                    e,
                ),
        decreases n - wi,
    {
        let ghost before = *worlds;
        let slug = clone_string(worlds.index(wi).get_slug());
        let loaded;
        {
            let world = worlds.index_mut(wi);
            loaded = world.get_chunks_map_mut().drain_loaded_chunks();
            proof {
                lemma_world_update_wf(before, *worlds, wi as int);
            }
        }
        proof {
            assert(loaded@ == worlds0.worlds@[wi as int].chunks_map.loaded_queue@);
            assert(slug@ == worlds0.worlds@[wi as int].slug@);
        }
        let ln = loaded.len();
        let mut li: usize = 0;
        while li < ln
            invariant
                worlds.wf(),
                clients.wf(),
                worlds0 == *old(worlds),
                n == worlds.worlds@.len(),
                n == worlds0.worlds@.len(),
                wi < n,
                ln == loaded@.len(),
                li <= ln,
                slug@ == worlds0.worlds@[wi as int].slug@,
                loaded@ == worlds0.worlds@[wi as int].chunks_map.loaded_queue@,
                forall|j: int|
                    0 <= j < n ==> (#[trigger] worlds.worlds@[j]).slug == worlds0.worlds@[j].slug
                        && worlds.worlds@[j].ecs == worlds0.worlds@[j].ecs,
                forall|j: int|
                    0 <= j <= wi ==> (#[trigger] worlds.worlds@[j]).chunks_map.loaded_queue@.len()
                        == 0,
                forall|j: int|
                    wi + 1 <= j < n ==> #[trigger] worlds.worlds@[j] == worlds0.worlds@[j],
                forall|k: int|
                    0 <= k < notices@.len() ==> spawn_notice_due(
                        worlds0,
                        *clients,
                        #[trigger] notices@[k],
                    ),
                forall|j: int, e: u64|
                    0 <= j < wi && #[trigger] entity_in_loaded_chunk(worlds0, j, e)
                        && entity_client_connected(*clients, e) ==> notice_in(
                        notices@,
                        worlds0.worlds@[j].slug@,
                        e,
                    ),
                forall|e: u64|
                    (exists|l: int|
                        0 <= l < li && worlds0.worlds@[wi as int].ecs.has_entity(e)
                            && worlds0.worlds@[wi as int].ecs.spec_record(
                            e,
                        ).position.spec_chunk_position() == #[trigger] loaded@[l])
                        && entity_client_connected(*clients, e) ==> notice_in(
                        notices@,
                        worlds0.worlds@[wi as int].slug@,
                        e,
                    ),
            decreases ln - li,
        {
            let entities = worlds.index(wi).get_ecs().get_chunk_entities(&loaded[li]);
            proof {
                assert(worlds.worlds@[wi as int].ecs == worlds0.worlds@[wi as int].ecs);
            }
            let en = entities.len();
            let mut ei: usize = 0;
            while ei < en
                invariant
                    clients.wf(),
                    worlds0 == *old(worlds),
                    wi < worlds0.worlds@.len(),
                    li < ln == loaded@.len(),
                    slug@ == worlds0.worlds@[wi as int].slug@,
                    loaded@ == worlds0.worlds@[wi as int].chunks_map.loaded_queue@,
                    en == entities@.len(),
                    ei <= en,
                    forall|e: u64|
                        entities@.contains(e) == (worlds0.worlds@[wi as int].ecs.has_entity(e)
                            && worlds0.worlds@[wi as int].ecs.spec_record(
                            e,
                        ).position.spec_chunk_position() == loaded@[li as int]),
                    forall|k: int|
                        0 <= k < notices@.len() ==> spawn_notice_due(
                            worlds0,
                            *clients,
                            #[trigger] notices@[k],
                        ),
                    forall|j: int, e: u64|
                        0 <= j < wi && #[trigger] entity_in_loaded_chunk(worlds0, j, e)
                            && entity_client_connected(*clients, e) ==> notice_in(
                            notices@,
                            worlds0.worlds@[j].slug@,
                            e,
                        ),
                    forall|e: u64|
                        (exists|l: int|
                            0 <= l < li && worlds0.worlds@[wi as int].ecs.has_entity(e)
                                && worlds0.worlds@[wi as int].ecs.spec_record(
                                e,
                            ).position.spec_chunk_position() == #[trigger] loaded@[l])
                            && entity_client_connected(*clients, e) ==> notice_in(
                            notices@,
                            worlds0.worlds@[wi as int].slug@,
                            e,
                        ),
                    forall|idx: int|
                        0 <= idx < ei && entity_client_connected(
                            *clients,
                            #[trigger] entities@[idx],
                        ) ==> notice_in(
                            notices@,
                            worlds0.worlds@[wi as int].slug@,
                            entities@[idx],
                        ),
                decreases en - ei,
            {
                let entity = entities[ei];
                let connected = is_entity_client_connected(clients, entity);
                if connected {
                    let ghost before_n = notices@;
                    notices.push(WorldEntity::new(clone_string(&slug), entity));
                    proof {
                        let added = notices@.last();
                        assert(added.spec_world_slug() == worlds0.worlds@[wi as int].slug@);
                        assert(added.spec_entity_id() == entity);
                        assert(entities@.contains(entities@[ei as int]));
                        assert(entity_in_loaded_chunk(worlds0, wi as int, entity)) by {
                            assert(loaded@.contains(loaded@[li as int]));
                        };
                        assert(spawn_notice_due(worlds0, *clients, added));
                        assert forall|k: int|
                            0 <= k < notices@.len() implies spawn_notice_due(
                            worlds0,
                            *clients,
                            #[trigger] notices@[k],
                        ) by {
                            if k < before_n.len() {
                                assert(notices@[k] == before_n[k]);
                            }
                        }
                        assert forall|j: int, e: u64|
                            0 <= j < wi && #[trigger] entity_in_loaded_chunk(worlds0, j, e)
                                && entity_client_connected(*clients, e) implies notice_in(
                            notices@,
                            worlds0.worlds@[j].slug@,
                            e,
                        ) by {
                            lemma_notice_in_push(before_n, notices@, worlds0.worlds@[j].slug@, e);
                        }
                        assert forall|e: u64|
                            (exists|l: int|
                                0 <= l < li && worlds0.worlds@[wi as int].ecs.has_entity(e)
                                    && worlds0.worlds@[wi as int].ecs.spec_record(
                                    e,
                                ).position.spec_chunk_position() == #[trigger] loaded@[l])
                                && entity_client_connected(*clients, e) implies notice_in(
                            notices@,
                            worlds0.worlds@[wi as int].slug@,
                            e,
                        ) by {
                            lemma_notice_in_push(
                                before_n,
                                notices@,
                                worlds0.worlds@[wi as int].slug@,
                                e,
                            );
                        }
                        assert forall|idx: int|
                            0 <= idx < ei + 1 && entity_client_connected(
                            *clients,
                            #[trigger] entities@[idx],
                        ) implies notice_in(
                            notices@,
                            worlds0.worlds@[wi as int].slug@,
                            entities@[idx],
                        ) by {
                            if idx < ei {
                                lemma_notice_in_push(
                                    before_n,
                                    notices@,
                                    worlds0.worlds@[wi as int].slug@,
                                    entities@[idx],
                                );
                            } else {
                                assert(notices@.last().spec_entity_id() == entities@[idx]);
                            }
                        }
                    }
                }
                ei = ei + 1;
            }
            proof {
                assert forall|e: u64|
                    (exists|l: int|
                        0 <= l < li + 1 && worlds0.worlds@[wi as int].ecs.has_entity(e)
                            && worlds0.worlds@[wi as int].ecs.spec_record(
                            e,
                        ).position.spec_chunk_position() == #[trigger] loaded@[l])
                        && entity_client_connected(*clients, e) implies notice_in(
                    notices@,
                    worlds0.worlds@[wi as int].slug@,
                    e,
                ) by {
                    let l = choose|l: int|
                        0 <= l < li + 1 && worlds0.worlds@[wi as int].ecs.has_entity(e)
                            && worlds0.worlds@[wi as int].ecs.spec_record(
                            e,
                        ).position.spec_chunk_position() == #[trigger] loaded@[l];
                    if l == li {
                        assert(entities@.contains(e));
                        let idx = choose|idx: int|
                            0 <= idx < entities@.len() && entities@[idx] == e;
                        assert(entity_client_connected(*clients, entities@[idx]));
                    }
                }
            }
            li = li + 1;
        }
        proof {
            assert forall|j: int|
                0 <= j <= wi implies (#[trigger] worlds.worlds@[j]).chunks_map.loaded_queue@.len()
                == 0 by {
                if j < wi {
                    assert(worlds.worlds@[j] == before.worlds@[j]);
                }
            }
            assert forall|j: int, e: u64|
                0 <= j < wi + 1 && #[trigger] entity_in_loaded_chunk(worlds0, j, e)
                    && entity_client_connected(*clients, e) implies notice_in(
                notices@,
                worlds0.worlds@[j].slug@,
                e,
            ) by {
                if j == wi {
                    let q = worlds0.worlds@[j].ecs.spec_record(e).position.spec_chunk_position();
                    let l = choose|l: int|
                        0 <= l < worlds0.worlds@[j].chunks_map.loaded_queue@.len()
                            && worlds0.worlds@[j].chunks_map.loaded_queue@[l] == q;
                    assert(loaded@[l] == q);
                }
            }
        }
        wi = wi + 1;
    }
    notices
}

/// A notice list keeps its entries when one is appended.
proof fn lemma_notice_in_push(
    before: Seq<WorldEntity>,
    after: Seq<WorldEntity>,
    slug: Seq<char>,
    e: u64,
)
    requires
        after == before.push(after.last()),
        notice_in(before, slug, e),
    ensures
        notice_in(after, slug, e),
{
    let k = choose|k: int|
        0 <= k < before.len() && (#[trigger] before[k]).spec_world_slug() == slug
            && before[k].spec_entity_id() == e;
    assert(after[k] == before[k]);
}

/// Whether some connected session is attached to the given entity.
fn is_entity_client_connected(clients: &ClientsContainer, entity: u64) -> (r: bool)
    ensures
        r == entity_client_connected(*clients, entity),
{
    let n = clients.len();
    let mut i: usize = 0;
    while i < n
        invariant
            n == clients.spec_players().len(),
            i <= n,
            forall|j: int|
                0 <= j < i ==> !((#[trigger] clients.spec_players()[j]).spec_connected()
                    && match clients.spec_players()[j].spec_world_entity() {
                    Some(we) => we.spec_entity_id() == entity,
                    None => false,
                }),
        decreases n - i,
    {
        let session = clients.index(i);
        let hit = session.is_connected() && match session.get_world_entity() {
            Some(we) => we.get_entity() == entity,
            None => false,
        };
        if hit {
            return true;
        }
        i = i + 1;
    }
    false
}

} // verus!
