//! The console command pipeline.
//!
//! Commands from stdin and from clients arrive as `(sender, line)` pairs.
//! The line is split on whitespace and parsed into a typed command, and
//! the command is executed against the registries inside the tick, so
//! handlers can mutate state without locking ambiguity. Only teleport
//! coordinates are parsed outside: they are fractional, so the caller
//! hands them in as milli-block integers in a ready-made command value.

use vstd::prelude::*;

use crate::client::ClientNetwork;
use crate::clients::{clone_string, ClientsContainer};
use crate::handlers::spec_world_index;
use crate::messages::{NetworkMessageType, ServerMessage};
use crate::positions::{position_in_bounds, Position, Rotation};
use crate::world::WorldsManager;

verus! {

/// Whether a character separates words on a command line.
pub open spec fn is_ws_char(c: char) -> bool {
    c == ' ' || c == '\t' || c == '\r' || c == '\n'
}

/// The whitespace-separated words of `s` from index `i` on: maximal runs
/// of non-separator characters, in order.
pub open spec fn spec_split_from(s: Seq<char>, i: int) -> Seq<Seq<char>>
    decreases s.len() - i,
{
    if i < 0 || i >= s.len() {
        Seq::<Seq<char>>::empty()
    } else {
        let rest = spec_split_from(s, i + 1);
        if is_ws_char(s[i]) {
            rest
        } else if i + 1 < s.len() && !is_ws_char(s[i + 1]) {
            seq![seq![s[i]] + rest[0]] + rest.drop_first()
        } else {
            seq![seq![s[i]]] + rest
        }
    }
}

/// The whitespace-separated words of a whole line.
pub open spec fn spec_split_ws(s: Seq<char>) -> Seq<Seq<char>> {
    spec_split_from(s, 0)
}

/// Words joined by single spaces.
pub open spec fn spec_joined(words: Seq<Seq<char>>) -> Seq<char>
    decreases words.len(),
{
    if words.len() == 0 {
        Seq::<char>::empty()
    } else if words.len() == 1 {
        words[0]
    } else {
        words[0] + seq![' '] + spec_joined(words.drop_first())
    }
}

/// Whether a character separates words, as the splitter tests it.
fn is_ws(c: char) -> (r: bool)
    ensures
        r == is_ws_char(c),
{
    c == ' ' || c == '\t' || c == '\r' || c == '\n'
}

/// Splits a line into its whitespace-separated words.
pub fn split_words(line: &str) -> (r: Vec<String>)
    ensures
        r@.len() == spec_split_ws(line@).len(),
        forall|k: int| 0 <= k < r@.len() ==> (#[trigger] r@[k])@ == spec_split_ws(line@)[k],
{
    let n = line.unicode_len();
    let mut bounds: Vec<(usize, usize)> = Vec::new();
    let mut i: usize = n;
    while i > 0
        invariant
            n == line@.len(),
            i <= n,
            bounds@.len() == spec_split_from(line@, i as int).len(),
            forall|k: int|
                0 <= k < bounds@.len() ==> {
                    let b = #[trigger] bounds@[k];
                    &&& b.0 < b.1 <= n
                    &&& spec_split_from(line@, i as int)[k] == line@.subrange(
                        b.0 as int,
                        b.1 as int,
                    )
                },
            (i < n && !is_ws_char(line@[i as int])) ==> bounds@.len() > 0 && bounds@[0].0 == i,
        decreases i,
    {
        i = i - 1;
        let c = line.get_char(i);
        let ghost s = line@;
        let ghost rest = spec_split_from(s, i as int + 1);
        if is_ws(c) {
            proof {
                assert(spec_split_from(s, i as int) == rest);
            }
        } else {
            let next_joins = i + 1 < n && !is_ws(line.get_char(i + 1));
            if next_joins {
                let ghost b0 = bounds@[0];
                let e = bounds[0].1;
                bounds.set(0, (i, e));
                proof {
                    let cur = spec_split_from(s, i as int);
                    assert(cur == seq![seq![s[i as int]] + rest[0]] + rest.drop_first());
                    assert(rest[0] == s.subrange(b0.0 as int, b0.1 as int));
                    assert(b0.0 == i + 1);
                    assert(seq![s[i as int]] + s.subrange(i as int + 1, e as int) =~= s.subrange(
                        i as int,
                        e as int,
                    ));
                    assert(cur[0] == s.subrange(i as int, e as int));
                    assert forall|k: int| 0 <= k < bounds@.len() implies {
                        let b = #[trigger] bounds@[k];
                        &&& b.0 < b.1 <= n
                        &&& cur[k] == s.subrange(b.0 as int, b.1 as int)
                    } by {
                        if k > 0 {
                            assert(cur[k] == rest.drop_first()[k - 1]);
                            assert(rest[k] == s.subrange(
                                bounds@[k].0 as int,
                                bounds@[k].1 as int,
                            ));
                        }
                    }
                }
            } else {
                bounds.insert(0, (i, i + 1));
                proof {
                    let cur = spec_split_from(s, i as int);
                    assert(cur == seq![seq![s[i as int]]] + rest);
                    assert(seq![s[i as int]] =~= s.subrange(i as int, i as int + 1));
                    assert forall|k: int| 0 <= k < bounds@.len() implies {
                        let b = #[trigger] bounds@[k];
                        &&& b.0 < b.1 <= n
                        &&& cur[k] == s.subrange(b.0 as int, b.1 as int)
                    } by {
                        if k > 0 {
                            assert(cur[k] == rest[k - 1]);
                        }
                    }
                }
            }
        }
    }
    let m = bounds.len();
    let mut words: Vec<String> = Vec::new();
    let mut k: usize = 0;
    while k < m
        invariant
            n == line@.len(),
            m == bounds@.len(),
            k <= m,
            m == spec_split_ws(line@).len(),
            forall|j: int|
                0 <= j < m ==> {
                    let b = #[trigger] bounds@[j];
                    &&& b.0 < b.1 <= n
                    &&& spec_split_ws(line@)[j] == line@.subrange(b.0 as int, b.1 as int)
                },
            words@.len() == k,
            forall|j: int| 0 <= j < k ==> (#[trigger] words@[j])@ == spec_split_ws(line@)[j],
        decreases m - k,
    {
        let (a, b) = bounds[k];
        let w = String::from_str(line.substring_char(a, b));
        words.push(w);
        k = k + 1;
    }
    words
}

/// Joining a word onto a joined list appends a space and the word.
proof fn lemma_joined_push(words: Seq<Seq<char>>, w: Seq<char>)
    ensures
        spec_joined(words.push(w)) == if words.len() == 0 {
            w
        } else {
            spec_joined(words) + seq![' '] + w
        },
    decreases words.len(),
{
    if words.len() > 0 {
        assert(words.push(w).drop_first() =~= words.drop_first().push(w));
        lemma_joined_push(words.drop_first(), w);
        if words.len() == 1 {
            assert(spec_joined(words.push(w)) == words[0] + seq![' '] + w);
            assert(spec_joined(words) == words[0]);
        } else {
            assert(spec_joined(words.push(w)) == words[0] + seq![' '] + spec_joined(
                words.drop_first().push(w),
            ));
            assert((words[0] + seq![' '] + (spec_joined(words.drop_first()) + seq![' '] + w))
                =~= (words[0] + seq![' '] + spec_joined(words.drop_first())) + seq![' '] + w);
        }
    }
}

/// Joins the words from index `from` on with single spaces.
fn join_tail(words: &Vec<String>, from: usize) -> (r: String)
    requires
        from <= words@.len(),
    ensures
        r@ == spec_joined(words@.map_values(|w: String| w@).skip(from as int)),
{
    let ghost tail = words@.map_values(|w: String| w@).skip(from as int);
    let mut out = String::from_str("");
    let n = words.len();
    let mut k: usize = from;
    proof {
        reveal_strlit("");
        reveal_strlit(" ");
        assert(tail.subrange(0, 0) =~= Seq::<Seq<char>>::empty());
        assert(out@ =~= Seq::<char>::empty());
        assert(" "@ =~= seq![' ']);
    }
    while k < n
        invariant
            from <= k <= n,
            n == words@.len(),
            tail == words@.map_values(|w: String| w@).skip(from as int),
            out@ == spec_joined(tail.subrange(0, k - from)),
        decreases n - k,
    {
        proof {
            reveal_strlit(" ");
            assert(" "@ =~= seq![' ']);
            assert(tail.subrange(0, k - from).push(tail[k - from]) =~= tail.subrange(
                0,
                k - from + 1,
            ));
            lemma_joined_push(tail.subrange(0, k - from), tail[k - from]);
            assert(tail[k - from] == words@[k as int]@);
        }
        if k > from {
            out.append(" ");
        }
        out.append(words[k].as_str());
        k = k + 1;
    }
    proof {
        assert(tail.subrange(0, n - from) =~= tail);
    }
    out
}

/// One parsed console command.
pub enum ConsoleCommand {
    Tps,
    Kick { login: String, message: String },
    WorldList,
    Teleport { position: Position },
    Unknown,
}

/// Parses one console line into a command. Teleportation is the one
/// command the parser never produces: its fractional coordinates are
/// parsed by the caller, which builds the command value directly.
pub fn parse_console_command(line: &String) -> (r: ConsoleCommand)
    ensures
        ({
            let words = spec_split_ws(line@);
            &&& (r is Tps <==> (words.len() == 1 && words[0] == "tps"@))
            &&& (r is WorldList <==> (words.len() == 2 && words[0] == "world"@ && words[1]
                == "list"@))
            &&& ((words.len() >= 2 && words[0] == "kick"@) <==> r is Kick)
            &&& (r matches ConsoleCommand::Kick { login, message } ==> login@ == words[1]
                && message@ == (if words.len() == 2 {
                "-"@
            } else {
                spec_joined(words.skip(2))
            }))
            &&& !(r is Teleport)
        }),
{
    let words = split_words(line.as_str());
    if words.len() == 1 && crate::strutil::str_eq(words[0].as_str(), "tps") {
        return ConsoleCommand::Tps;
    }
    if words.len() == 2 && crate::strutil::str_eq(words[0].as_str(), "world")
        && crate::strutil::str_eq(words[1].as_str(), "list") {
        proof {
            reveal_strlit("world");
            reveal_strlit("kick");
            assert("world"@.len() == 5);
            assert("kick"@.len() == 4);
            assert(spec_split_ws(line@)[0] == words@[0]@);
            assert(spec_split_ws(line@)[0] != "kick"@);
        }
        return ConsoleCommand::WorldList;
    }
    if words.len() >= 2 && crate::strutil::str_eq(words[0].as_str(), "kick") {
        proof {
            reveal_strlit("world");
            reveal_strlit("kick");
        }
        let login = clone_string(&words[1]);
        let message = if words.len() == 2 {
            String::from_str("-")
        } else {
            let r = join_tail(&words, 2);
            proof {
                assert(words@.map_values(|w: String| w@).skip(2) =~= spec_split_ws(
                    line@,
                ).skip(2)) by {
                    assert forall|j: int|
                        0 <= j < words@.len() - 2 implies words@.map_values(|w: String| w@).skip(
                        2,
                    )[j] == spec_split_ws(line@).skip(2)[j] by {
                        assert(words@[j + 2]@ == spec_split_ws(line@)[j + 2]);
                    }
                };
            }
            r
        };
        return ConsoleCommand::Kick { login, message };
    }
    ConsoleCommand::Unknown
}

/// Whether an outbox is its old self with exactly one reliably ordered
/// console-output envelope appended.
pub open spec fn console_line_appended(
    old_out: Seq<(NetworkMessageType, ServerMessage)>,
    new_out: Seq<(NetworkMessageType, ServerMessage)>,
) -> bool {
    exists|m: String|
        new_out == old_out.push(
            (NetworkMessageType::ReliableOrdered, ServerMessage::ConsoleOutput { message: m }),
        )
}

/// The registries agree except that the sender's session, if registered,
/// gained exactly one reliably ordered console-output envelope.
pub open spec fn replied_once(
    old_c: ClientsContainer,
    new_c: ClientsContainer,
    sender: u64,
) -> bool {
    &&& new_c.spec_players().len() == old_c.spec_players().len()
    &&& forall|j: int|
        0 <= j < old_c.spec_players().len() ==> {
            let c_old = #[trigger] old_c.spec_players()[j];
            let c_new = new_c.spec_players()[j];
            if c_old.spec_client_id() == sender {
                c_new == (ClientNetwork { outbox: c_new.outbox, ..c_old })
                    && console_line_appended(c_old.spec_outbox(), c_new.spec_outbox())
            } else {
                c_new == c_old
            }
        }
}

/// Whether a session is identified by this login.
pub open spec fn session_has_login(c: ClientNetwork, login: Seq<char>) -> bool {
    match c.spec_client_info() {
        Some(info) => info.login@ == login,
        None => false,
    }
}

/// What a kick leaves of the registries: the first session identified by
/// the login is disconnected with the given reason and the sender gets a
/// confirmation line; with no such session the sender alone gets a
/// not-found line.
pub open spec fn kick_outcome(
    old_c: ClientsContainer,
    new_c: ClientsContainer,
    sender: u64,
    login: Seq<char>,
    message: Seq<char>,
) -> bool {
    if forall|j: int|
        0 <= j < old_c.spec_players().len() ==> !session_has_login(
            #[trigger] old_c.spec_players()[j],
            login,
        ) {
        replied_once(old_c, new_c, sender)
    } else {
        exists|li: int|
            {
                &&& 0 <= li < old_c.spec_players().len()
                &&& #[trigger] session_has_login(old_c.spec_players()[li], login)
                &&& forall|j: int|
                    0 <= j < li ==> !session_has_login(#[trigger] old_c.spec_players()[j], login)
                &&& new_c.spec_players().len() == old_c.spec_players().len()
                &&& forall|j: int|
                    0 <= j < old_c.spec_players().len() ==> {
                        let c_old = #[trigger] old_c.spec_players()[j];
                        let c_new = new_c.spec_players()[j];
                        if j == li {
                            &&& c_new == (ClientNetwork {
                                connected: false,
                                disconnect_reason: c_new.disconnect_reason,
                                outbox: c_new.outbox,
                                ..c_old
                            })
                            &&& !c_new.spec_connected()
                            &&& c_new.spec_disconnect_reason() matches Some(r) && r@ == message
                            &&& if c_old.spec_client_id() == sender {
                                console_line_appended(c_old.spec_outbox(), c_new.spec_outbox())
                            } else {
                                c_new.spec_outbox() == c_old.spec_outbox()
                            }
                        } else if c_old.spec_client_id() == sender {
                            c_new == (ClientNetwork { outbox: c_new.outbox, ..c_old })
                                && console_line_appended(
                                c_old.spec_outbox(),
                                c_new.spec_outbox(),
                            )
                        } else {
                            c_new == c_old
                        }
                    }
            }
    }
}

/// Sends one console-output line to the sender's session, if registered.
fn reply_to_sender(clients: &mut ClientsContainer, sender: u64, message: String)
    requires
        old(clients).wf(),
    ensures
        final(clients).wf(),
        replied_once(*old(clients), *final(clients), sender),
{
    match clients.find_index(sender) {
        Some(i) => {
            let ghost before = *clients;
            let ghost msg0 = message;
            let session = clients.index_mut(i);
            session.send_message(
                NetworkMessageType::ReliableOrdered,
                ServerMessage::ConsoleOutput { message },
            );
            proof {
                crate::handlers::lemma_session_update_wf(before, *clients, i as int);
                assert(clients.spec_players()[i as int].spec_outbox() == before.spec_players()[
                    i as int
                ].spec_outbox().push(
                    (
                        NetworkMessageType::ReliableOrdered,
                        ServerMessage::ConsoleOutput { message: msg0 },
                    ),
                ));
                assert(console_line_appended(
                    before.spec_players()[i as int].spec_outbox(),
                    clients.spec_players()[i as int].spec_outbox(),
                ));
                assert forall|j: int|
                    0 <= j < old(clients).spec_players().len() implies {
                    let c_old = #[trigger] old(clients).spec_players()[j];
                    let c_new = clients.spec_players()[j];
                    if c_old.spec_client_id() == sender {
                        c_new == (ClientNetwork { outbox: c_new.outbox, ..c_old })
                            && console_line_appended(c_old.spec_outbox(), c_new.spec_outbox())
                    } else {
                        c_new == c_old
                    }
                } by {
                    if j != i {
                        assert(clients.spec_players()[j] == old(clients).spec_players()[j]);
                        if old(clients).spec_players()[j].spec_client_id() == sender {
                            crate::handlers::lemma_index_of_is(*old(clients), sender, j);
                            crate::handlers::lemma_index_of_is(*old(clients), sender, i as int);
                        }
                    }
                }
            }
        },
        None => {},
    }
}

/// Executes one console command against the registries. Status commands
/// answer the sender alone; a kick disconnects its target and confirms to
/// the sender; a teleport moves the sender's player when it is attached,
/// its world and entity exist and the target is representable, and
/// otherwise changes nothing but an advisory line to the sender.
pub fn run_console_command(
    clients: &mut ClientsContainer,
    worlds: &mut WorldsManager,
    tps: u32,
    sender: u64,
    cmd: ConsoleCommand,
)
    requires
        old(clients).wf(),
        old(worlds).wf(),
    ensures
        final(clients).wf(),
        final(worlds).wf(),
        (cmd is Tps || cmd is WorldList || cmd is Unknown) ==> *final(worlds) == *old(worlds)
            && replied_once(*old(clients), *final(clients), sender),
        cmd matches ConsoleCommand::Kick { login, message } ==> *final(worlds) == *old(worlds)
            && kick_outcome(*old(clients), *final(clients), sender, login@, message@),
        cmd matches ConsoleCommand::Teleport { position } ==> ({
            let att = old(clients).spec_has_client(sender) && old(clients).spec_players()[
                old(clients).spec_index_of(sender)
            ].spec_world_entity() is Some;
            &&& (!att ==> *final(worlds) == *old(worlds) && replied_once(
                *old(clients),
                *final(clients),
                sender,
            ))
            &&& (att ==> {
                let we = old(clients).spec_players()[
                    old(clients).spec_index_of(sender)
                ].spec_world_entity()->0;
                let ok = position_in_bounds(position) && old(worlds).spec_has_world(
                    we.spec_world_slug(),
                ) && old(worlds).worlds@[
                    spec_world_index(*old(worlds), we.spec_world_slug())
                ].ecs.has_entity(we.spec_entity_id());
                &&& (!ok ==> *final(worlds) == *old(worlds) && *final(clients) == *old(clients))
                &&& (ok ==> {
                    let wi = spec_world_index(*old(worlds), we.spec_world_slug());
                    &&& final(worlds).worlds@.len() == old(worlds).worlds@.len()
                    &&& (forall|j: int|
                        0 <= j < old(worlds).worlds@.len() && j != wi
                            ==> #[trigger] final(worlds).worlds@[j] == old(worlds).worlds@[j])
                    &&& final(worlds).worlds@[wi].slug == old(worlds).worlds@[wi].slug
                    &&& final(worlds).worlds@[wi].ecs.spec_record(we.spec_entity_id()) == (
                    crate::ecs::EntityRecord {
                        position,
                        rotation: (Rotation { yaw_milli: 0, pitch_milli: 0 }),
                        ..old(worlds).worlds@[wi].ecs.spec_record(we.spec_entity_id())
                    })
                })
            })
        }),
{
    match cmd {
        ConsoleCommand::Tps => {
            let mut message = String::from_str("TPS: ");
            let digits = crate::plugins::u64_to_string(tps as u64);
            message.append(digits.as_str());
            reply_to_sender(clients, sender, message);
        },
        ConsoleCommand::WorldList => {
            let mut message = String::from_str("Worlds list:");
            let n = worlds.count();
            let mut wi: usize = 0;
            while wi < n
                invariant
                    worlds.wf(),
                    n == worlds.worlds@.len(),
                    wi <= n,
                decreases n - wi,
            {
                message.append("\n - ");
                message.append(worlds.index(wi).get_slug().as_str());
                message.append(" (loaded chunks: ");
                let count = worlds.index(wi).get_chunks_count();
                let digits = crate::plugins::u64_to_string(count as u64);
                message.append(digits.as_str());
                message.append(")");
                wi = wi + 1;
            }
            reply_to_sender(clients, sender, message);
        },
        ConsoleCommand::Unknown => {
            reply_to_sender(clients, sender, String::from_str("Unknown command"));
        },
        ConsoleCommand::Kick { login, message } => {
            let found = find_first_by_login(clients, &login);
            match found {
                Some(li) => {
                    let ghost before = *clients;
                    {
                        let session = clients.index_mut(li);
                        session.disconnect(Some(message));
                    }
                    proof {
                        crate::handlers::lemma_session_update_wf(before, *clients, li as int);
                    }
                    let ghost mid = *clients;
                    let mut confirmation = String::from_str("Kicked player ");
                    confirmation.append(login.as_str());
                    match clients.find_index(sender) {
                        Some(si) => {
                            let ghost before2 = *clients;
                            let ghost confv = confirmation;
                            let session = clients.index_mut(si);
                            session.send_message(
                                NetworkMessageType::ReliableOrdered,
                                ServerMessage::ConsoleOutput { message: confirmation },
                            );
                            proof {
                                crate::handlers::lemma_session_update_wf(
                                    before2,
                                    *clients,
                                    si as int,
                                );
                                assert(clients.spec_players()[si as int].spec_outbox()
                                    == before2.spec_players()[si as int].spec_outbox().push(
                                    (
                                        NetworkMessageType::ReliableOrdered,
                                        ServerMessage::ConsoleOutput { message: confv },
                                    ),
                                ));
                                assert(console_line_appended(
                                    before2.spec_players()[si as int].spec_outbox(),
                                    clients.spec_players()[si as int].spec_outbox(),
                                ));
                                lemma_kick_outcome(
                                    *old(clients),
                                    mid,
                                    *clients,
                                    sender,
                                    li as int,
                                    Some(si as int),
                                    login@,
                                );
                            }
                        },
                        None => {
                            proof {
                                assert(!old(clients).spec_has_client(sender)) by {
                                    if old(clients).spec_has_client(sender) {
                                        let j = old(clients).spec_index_of(sender);
                                        assert(clients.spec_players()[j].spec_client_id()
                                            == sender);
                                        assert(clients.spec_has_client(sender));
                                    }
                                };
                                lemma_kick_outcome(
                                    *old(clients),
                                    mid,
                                    *clients,
                                    sender,
                                    li as int,
                                    None,
                                    login@,
                                );
                            }
                        },
                    }
                },
                None => {
                    let mut message = String::from_str("Player with login \"");
                    message.append(login.as_str());
                    message.append("\" not found");
                    reply_to_sender(clients, sender, message);
                },
            }
        },
        ConsoleCommand::Teleport { position } => {
            let attachment: Option<crate::client::WorldEntity> = match clients.find_index(
                sender,
            ) {
                Some(ci) => {
                    proof {
                        crate::handlers::lemma_index_of_is(*clients, sender, ci as int);
                    }
                    match clients.index(ci).get_world_entity() {
                        Some(we) => Some(
                            crate::client::WorldEntity::new(
                                clone_string(we.get_world_slug()),
                                we.get_entity(),
                            ),
                        ),
                        None => None,
                    }
                },
                None => None,
            };
            match attachment {
                Some(we) => {
                    let in_bounds = position.x_milli >= -crate::positions::COORD_LIMIT
                        && position.x_milli <= crate::positions::COORD_LIMIT && position.y_milli
                        >= -crate::positions::COORD_LIMIT && position.y_milli
                        <= crate::positions::COORD_LIMIT && position.z_milli
                        >= -crate::positions::COORD_LIMIT && position.z_milli
                        <= crate::positions::COORD_LIMIT;
                    if !in_bounds {
                        return ;
                    }
                    match worlds.find_world(we.get_world_slug()) {
                        Some(wi) => {
                            proof {
                                crate::handlers::lemma_world_index_is(
                                    *worlds,
                                    we.spec_world_slug(),
                                    wi as int,
                                );
                            }
                            let present = worlds.index(wi).get_ecs().get_entity(
                                we.get_entity(),
                            ).is_some();
                            if !present {
                                return ;
                            }
                            let ghost worlds_before = *worlds;
                            let world = worlds.index_mut(wi);
                            crate::handlers::move_player(
                                world,
                                &we,
                                position,
                                Rotation { yaw_milli: 0, pitch_milli: 0 },
                                crate::messages::AnimationState { label: String::new() },
                                clients,
                            );
                            proof {
                                crate::handlers::lemma_world_update_wf(
                                    worlds_before,
                                    *worlds,
                                    wi as int,
                                );
                            }
                        },
                        None => {},
                    }
                },
                None => {
                    reply_to_sender(
                        clients,
                        sender,
                        String::from_str(
                            "This command is allowed to be used only for players",
                        ),
                    );
                },
            }
        },
    }
}

/// The first session identified by this login, scanning in registry
/// order.
fn find_first_by_login(clients: &ClientsContainer, login: &String) -> (r: Option<usize>)
    ensures
        match r {
            Some(i) => i < clients.spec_players().len() && session_has_login(
                clients.spec_players()[i as int],
                login@,
            ) && forall|j: int|
                0 <= j < i ==> !session_has_login(#[trigger] clients.spec_players()[j], login@),
            None => forall|j: int|
                0 <= j < clients.spec_players().len() ==> !session_has_login(
                    #[trigger] clients.spec_players()[j],
                    login@,
                ),
        },
{
    let n = clients.len();
    let mut i: usize = 0;
    while i < n
        invariant
            n == clients.spec_players().len(),
            i <= n,
            forall|j: int|
                0 <= j < i ==> !session_has_login(#[trigger] clients.spec_players()[j], login@),
        decreases n - i,
    {
        if clients.index(i).has_login(login) {
            return Some(i);
        }
        i = i + 1;
    }
    None
}

/// Composing a kick of session `li` with an optional confirmation to the
/// sender's session yields the stated kick outcome.
proof fn lemma_kick_outcome(
    base: ClientsContainer,
    mid: ClientsContainer,
    end: ClientsContainer,
    sender: u64,
    li: int,
    si: Option<int>,
    login: Seq<char>,
)
    requires
        base.wf(),
        0 <= li < base.spec_players().len(),
        session_has_login(base.spec_players()[li], login),
        forall|j: int| 0 <= j < li ==> !session_has_login(#[trigger] base.spec_players()[j], login),
        mid.spec_players() == base.spec_players().update(li, mid.spec_players()[li]),
        mid.spec_players()[li] == (ClientNetwork {
            connected: false,
            disconnect_reason: mid.spec_players()[li].disconnect_reason,
            ..base.spec_players()[li]
        }),
        !mid.spec_players()[li].spec_connected(),
        mid.spec_players()[li].spec_disconnect_reason() is Some,
        match si {
            Some(s) => {
                &&& 0 <= s < mid.spec_players().len()
                &&& mid.spec_players()[s].spec_client_id() == sender
                &&& end.spec_players() == mid.spec_players().update(s, end.spec_players()[s])
                &&& end.spec_players()[s] == (ClientNetwork {
                    outbox: end.spec_players()[s].outbox,
                    ..mid.spec_players()[s]
                })
                &&& console_line_appended(
                    mid.spec_players()[s].spec_outbox(),
                    end.spec_players()[s].spec_outbox(),
                )
            },
            None => {
                &&& end == mid
                &&& !base.spec_has_client(sender)
            },
        },
    ensures
        kick_outcome(base, end, sender, login, mid.spec_players()[li].spec_disconnect_reason()->0@),
{
    let message = mid.spec_players()[li].spec_disconnect_reason()->0@;
    assert(session_has_login(base.spec_players()[li], login));
    assert(!(forall|j: int|
        0 <= j < base.spec_players().len() ==> !session_has_login(
            #[trigger] base.spec_players()[j],
            login,
        )));
    assert forall|j: int| 0 <= j < base.spec_players().len() implies {
        let c_old = #[trigger] base.spec_players()[j];
        let c_new = end.spec_players()[j];
        if j == li {
            &&& c_new == (ClientNetwork {
                connected: false,
                disconnect_reason: c_new.disconnect_reason,
                outbox: c_new.outbox,
                ..c_old
            })
            &&& !c_new.spec_connected()
            &&& c_new.spec_disconnect_reason() matches Some(r) && r@ == message
            &&& if c_old.spec_client_id() == sender {
                console_line_appended(c_old.spec_outbox(), c_new.spec_outbox())
            } else {
                c_new.spec_outbox() == c_old.spec_outbox()
            }
        } else if c_old.spec_client_id() == sender {
            c_new == (ClientNetwork { outbox: c_new.outbox, ..c_old }) && console_line_appended(
                c_old.spec_outbox(),
                c_new.spec_outbox(),
            )
        } else {
            c_new == c_old
        }
    } by {
        match si {
            Some(s) => {
                assert(mid.spec_players()[s].spec_client_id() == base.spec_players()[
                    s
                ].spec_client_id());
                if j != s && base.spec_players()[j].spec_client_id() == sender {
                    assert(base.spec_players()[j].spec_client_id() != base.spec_players()[
                        s
                    ].spec_client_id()) by {
                        if j < s {
                            assert(base.spec_players()[j].spec_client_id()
                                != base.spec_players()[s].spec_client_id());
                        } else {
                            assert(base.spec_players()[s].spec_client_id()
                                != base.spec_players()[j].spec_client_id());
                        }
                    };
                    assert(false);
                }
                if j != li && j != s {
                    assert(end.spec_players()[j] == base.spec_players()[j]);
                }
                if j == li && j != s {
                    assert(end.spec_players()[j] == mid.spec_players()[j]);
                }
                if j == s && j != li {
                    assert(mid.spec_players()[j] == base.spec_players()[j]);
                }
                if j == li {
                    assert(mid.spec_players()[li].outbox == base.spec_players()[li].outbox);
                }
            },
            None => {
                if j != li {
                    assert(end.spec_players()[j] == base.spec_players()[j]);
                }
                if base.spec_players()[j].spec_client_id() == sender {
                    assert(base.spec_has_client(sender));
                    assert(false);
                }
                if j == li {
                    assert(mid.spec_players()[li].outbox == base.spec_players()[li].outbox);
                }
            },
        }
    }
}

} // verus!
