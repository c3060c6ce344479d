//! The registry of connected clients.
//!
//! Sessions are held by client id, each id once. Only the network drain
//! mutates the registry; handlers look sessions up by id or by login.

use vstd::prelude::*;

use crate::client::ClientNetwork;

verus! {

broadcast use vstd::string::to_string_from_display_ensures_for_str;

/// All connected clients' sessions, keyed by client id.
pub struct ClientsContainer {
    players: Vec<ClientNetwork>,
}

impl ClientsContainer {
    /// Validity: ids are unique and every session is internally valid.
    pub open spec fn wf(self) -> bool {
        &&& forall|i: int, j: int|
            0 <= i < j < self.spec_players().len() ==> self.spec_players()[i].spec_client_id()
                != self.spec_players()[j].spec_client_id()
        &&& forall|i: int| 0 <= i < self.spec_players().len() ==> (#[trigger] self.spec_players()[i]).wf()
    }

    pub closed spec fn spec_players(self) -> Seq<ClientNetwork> {
        self.players@
    }

    /// Whether some session has the given client id.
    pub open spec fn spec_has_client(self, client_id: u64) -> bool {
        exists|i: int|
            0 <= i < self.spec_players().len() && (#[trigger] self.spec_players()[i]).spec_client_id()
                == client_id
    }

    /// The index of the session with the given client id.
    pub open spec fn spec_index_of(self, client_id: u64) -> int {
        choose|i: int|
            0 <= i < self.spec_players().len() && (#[trigger] self.spec_players()[i]).spec_client_id()
                == client_id
    }

    /// An empty registry.
    pub fn new() -> (r: ClientsContainer)
        ensures
            r.wf(),
            r.spec_players().len() == 0,
    {
        ClientsContainer { players: Vec::new() }
    }

    pub fn len(&self) -> (r: usize)
        ensures
            r == self.spec_players().len(),
    {
        self.players.len()
    }

    pub fn index(&self, i: usize) -> (r: &ClientNetwork)
        requires
            i < self.spec_players().len(),
        ensures
            r == self.spec_players()[i as int],
    {
        &self.players[i]
    }

    pub fn index_mut(&mut self, i: usize) -> (r: &mut ClientNetwork)
        requires
            i < old(self).spec_players().len(),
        ensures
            *r == old(self).spec_players()[i as int],
            final(self).spec_players() == old(self).spec_players().update(i as int, *final(r)),
    {
        &mut self.players[i]
    }

    /// The index of the session with the given id, if connected.
    pub fn find_index(&self, client_id: u64) -> (r: Option<usize>)
        ensures
            match r {
                Some(i) => i < self.spec_players().len() && self.spec_players()[
                    i as int
                ].spec_client_id() == client_id && self.spec_has_client(client_id),
                None => !self.spec_has_client(client_id),
            },
    {
        let n = self.players.len();
        let mut i: usize = 0;
        while i < n
            invariant
                n == self.spec_players().len(),
                i <= n,
                forall|j: int|
                    0 <= j < i ==> (#[trigger] self.spec_players()[j]).spec_client_id()
                        != client_id,
            decreases n - i,
        {
            if self.players[i].get_client_id() == client_id {
                return Some(i);
            }
            i = i + 1;
        }
        None
    }

    /// Registers a session for a fresh connection. A prior session under
    /// the same id is replaced in place; no other entry changes.
    pub fn add(&mut self, client_id: u64, client_ip: String, queue_limit: usize)
        requires
            old(self).wf(),
        ensures
            final(self).wf(),
            final(self).spec_has_client(client_id),
            old(self).spec_has_client(client_id) ==> {
                let i = old(self).spec_index_of(client_id);
                &&& final(self).spec_players() == old(self).spec_players().update(
                    i,
                    final(self).spec_players()[i],
                )
                &&& crate::client::is_fresh_session(
                    final(self).spec_players()[i],
                    client_id,
                    client_ip@,
                    queue_limit,
                )
            },
            !old(self).spec_has_client(client_id) ==> final(self).spec_players() == old(
                self,
            ).spec_players().push(final(self).spec_players().last())
                && crate::client::is_fresh_session(
                final(self).spec_players().last(),
                client_id,
                client_ip@,
                queue_limit,
            ),
    {
        let session = ClientNetwork::new(client_id, client_ip, queue_limit);
        match self.find_index(client_id) {
            Some(i) => {
                proof {
                    let j = self.spec_index_of(client_id);
                    if i != j {
                        if i < j {
                            assert(self.spec_players()[i as int].spec_client_id()
                                != self.spec_players()[j].spec_client_id());
                        } else {
                            assert(self.spec_players()[j].spec_client_id()
                                != self.spec_players()[i as int].spec_client_id());
                        }
                    }
                }
                self.players[i] = session;
                proof {
                    let oldp = old(self).spec_players();
                    let newp = self.spec_players();
                    assert forall|a: int, b: int| 0 <= a < b < newp.len() implies newp[
                        a
                    ].spec_client_id() != newp[b].spec_client_id() by {
                        assert(newp[a].spec_client_id() == oldp[a].spec_client_id());
                        assert(newp[b].spec_client_id() == oldp[b].spec_client_id());
                    }
                    assert forall|k: int| 0 <= k < newp.len() implies (
                    #[trigger] newp[k]).wf() by {
                        if k != i {
                            assert(newp[k] == oldp[k]);
                        }
                    }
                    assert(newp[i as int].spec_client_id() == client_id);
                }
                return ;
            },
            None => {},
        }
        self.players.push(session);
        proof {
            let oldp = old(self).spec_players();
            let newp = self.spec_players();
            assert forall|i: int, j: int| 0 <= i < j < newp.len() implies newp[
                i
            ].spec_client_id() != newp[j].spec_client_id() by {
                if j < oldp.len() {
                    assert(oldp[i].spec_client_id() != oldp[j].spec_client_id());
                } else {
                    assert(newp[i] == oldp[i]);
                    if oldp[i].spec_client_id() == client_id {
                        assert(old(self).spec_has_client(client_id));
                    }
                }
            }
            assert forall|i: int| 0 <= i < newp.len() implies (#[trigger] newp[i]).wf() by {
                if i < oldp.len() {
                    assert(newp[i] == oldp[i]);
                    assert(oldp[i].wf());
                }
            }
            assert(newp[newp.len() - 1].spec_client_id() == client_id);
        }
    }

    /// Removes the session with the given id, if any.
    pub fn remove(&mut self, client_id: u64)
        requires
            old(self).wf(),
        ensures
            final(self).wf(),
            !final(self).spec_has_client(client_id),
            forall|c: u64|
                c != client_id ==> final(self).spec_has_client(c) == old(self).spec_has_client(c),
            forall|i: int|
                0 <= i < final(self).spec_players().len() ==> old(self).spec_players().contains(
                    #[trigger] final(self).spec_players()[i],
                ),
    {
        match self.find_index(client_id) {
            Some(i) => {
                self.players.remove(i);
                proof {
                    let oldp = old(self).spec_players();
                    let newp = self.spec_players();
                    assert forall|c: u64| c != client_id && old(self).spec_has_client(c) implies
                        self.spec_has_client(c) by {
                        let k = choose|k: int|
                            0 <= k < oldp.len() && (#[trigger] oldp[k]).spec_client_id() == c;
                        if k < i {
                            assert(newp[k] == oldp[k]);
                        } else {
                            assert(newp[k - 1] == oldp[k]);
                        }
                    }
                    assert forall|k: int| 0 <= k < newp.len() implies oldp.contains(
                        #[trigger] newp[k],
                    ) by {
                        if k < i {
                            assert(newp[k] == oldp[k]);
                        } else {
                            assert(newp[k] == oldp[k + 1]);
                        }
                    }
                    assert forall|k: int|
                        0 <= k < newp.len() implies (#[trigger] newp[k]).spec_client_id()
                        != client_id by {
                        if k < i {
                            assert(newp[k] == oldp[k]);
                        } else {
                            assert(newp[k] == oldp[k + 1]);
                        }
                    }
                    assert forall|a: int, b: int| 0 <= a < b < newp.len() implies newp[
                        a
                    ].spec_client_id() != newp[b].spec_client_id() by {
                        let a2: int = if a < i { a } else { a + 1 };
                        let b2: int = if b < i { b } else { b + 1 };
                        assert(newp[a] == oldp[a2] && newp[b] == oldp[b2]);
                        assert(oldp[a2].spec_client_id() != oldp[b2].spec_client_id());
                    }
                    assert forall|k: int| 0 <= k < newp.len() implies (
                    #[trigger] newp[k]).wf() by {
                        if k < i {
                            assert(newp[k] == oldp[k] && oldp[k].wf());
                        } else {
                            assert(newp[k] == oldp[k + 1] && oldp[k + 1].wf());
                        }
                    }
                }
            },
            None => {},
        }
    }

    /// The session identified by the given login, if one is.
    pub fn find_by_login(&self, login: &String) -> (r: Option<usize>)
        ensures
            match r {
                Some(i) => i < self.spec_players().len() && match self.spec_players()[
                    i as int
                ].spec_client_info() {
                    Some(info) => info.login@ == login@,
                    None => false,
                },
                None => forall|i: int|
                    0 <= i < self.spec_players().len() ==> match (
                        #[trigger] self.spec_players()[i]
                    ).spec_client_info() {
                        Some(info) => info.login@ != login@,
                        None => true,
                    },
            },
    {
        let n = self.players.len();
        let mut i: usize = 0;
        while i < n
            invariant
                n == self.spec_players().len(),
                i <= n,
                forall|j: int|
                    0 <= j < i ==> match (#[trigger] self.spec_players()[j]).spec_client_info() {
                        Some(info) => info.login@ != login@,
                        None => true,
                    },
            decreases n - i,
        {
            if self.players[i].has_login(login) {
                return Some(i);
            }
            i = i + 1;
        }
        None
    }

    /// Disconnects every session, with an optional shared reason, and
    /// empties the registry.
    pub fn disconnect_all(&mut self, message: Option<String>)
        requires
            old(self).wf(),
        ensures
            final(self).wf(),
            final(self).spec_players().len() == 0,
    {
        let n = self.players.len();
        let mut i: usize = 0;
        while i < n
            invariant
                old(self).wf(),
                n == self.spec_players().len(),
                i <= n,
                self.wf(),
            decreases n - i,
        {
            let ghost before = self.spec_players();
            let reason = clone_opt_string(&message);
            self.players[i].disconnect(reason);
            proof {
                let after = self.spec_players();
                assert forall|a: int, b: int| 0 <= a < b < after.len() implies after[
                    a
                ].spec_client_id() != after[b].spec_client_id() by {
                    assert(after[a].spec_client_id() == before[a].spec_client_id());
                    assert(after[b].spec_client_id() == before[b].spec_client_id());
                    assert(before[a].spec_client_id() != before[b].spec_client_id());
                }
                assert forall|k: int| 0 <= k < after.len() implies (#[trigger] after[k]).wf() by {
                    assert(before[k].wf());
                    if k != i {
                        assert(after[k] == before[k]);
                    }
                }
            }
            i = i + 1;
        }
        self.players.clear();
    }
}

/// A copy of an optional string.
fn clone_opt_string(s: &Option<String>) -> (r: Option<String>)
    ensures
        match (r, s) {
            (Some(a), Some(b)) => a@ == b@,
            (None, None) => true,
            _ => false,
        },
{
    match s {
        Some(v) => Some(clone_string(v)),
        None => None,
    }
}

/// A copy of a string.
pub fn clone_string(s: &String) -> (r: String)
    ensures
        r@ == s@,
{
    s.as_str().to_string()
}

} // verus!
