//! Server-side registry of live connections

use vstd::prelude::*;

use crate::Config;

verus! {

/// Server
///
/// The server accepts any number of incoming connections, keeps a
/// registry of the live ones, and broadcasts every outbound payload to
/// all of them. Each connection is known here by the identifier its
/// caller assigned when the socket was accepted; the sockets themselves
/// stay with the caller.
pub struct Server {
    /// Identifiers of connected peers, in order of connection
    peers: Vec<u64>,
    /// Configuration
    config: Config,
}

impl Server {
    /// The identifiers of the live connections, in the order they were
    /// accepted.
    pub closed spec fn peer_ids(&self) -> Seq<u64> {
        self.peers@
    }

    /// No two registry entries stand for the same connection.
    pub open spec fn wf(&self) -> bool {
        forall|i: int, j: int|
            0 <= i < j < self.peer_ids().len() ==> self.peer_ids()[i] != self.peer_ids()[j]
    }

    /// Return a new [`Server`] with some configuration and no
    /// connection yet.
    pub fn new(config: Config) -> (s: Server)
        ensures
            s.peer_ids() == Seq::<u64>::empty(),
            s.wf(),
    {
        Server { peers: Vec::new(), config }
    }

    /// The configuration the server was created with.
    pub closed spec fn spec_config(&self) -> Config {
        self.config
    }

    /// The configuration the server was created with.
    pub fn config(&self) -> (c: &Config)
        ensures
            c == self.spec_config(),
    {
        &self.config
    }

    /// The identifiers of the live connections, for broadcasting: every
    /// outbound payload is sent to each of them.
    pub fn peers(&self) -> (r: &Vec<u64>)
        ensures
            r@ == self.peer_ids(),
    {
        &self.peers
    }

    /// A new connection is established: register it.
    pub fn handle_connect(&mut self, id: u64)
        requires
            old(self).wf(),
            !old(self).peer_ids().contains(id),
        ensures
            final(self).peer_ids() == old(self).peer_ids().push(id),
            final(self).wf(),
    {
        self.peers.push(id);
        proof {
            let s = old(self).peer_ids();
            let t = self.peer_ids();
            assert forall|i: int, j: int| 0 <= i < j < t.len() implies t[i] != t[j] by {
                if j < s.len() {
                } else {
                    assert(t[j] == id);
                    assert(s.contains(t[i]) == false ==> t[i] != id) by {
                        if i < s.len() {
                            assert(s.contains(s[i]));
                        }
                    }
                }
            }
        }
    }

    /// A connection has been closed: drop it from the registry. The
    /// other entries keep their order; an identifier that was never
    /// registered changes nothing.
    pub fn handle_close(&mut self, id: u64)
        requires
            old(self).wf(),
        ensures
            final(self).peer_ids() == old(self).peer_ids().remove_value(id),
            final(self).wf(),
            !final(self).peer_ids().contains(id),
            forall|x: u64|
                x != id ==> (final(self).peer_ids().contains(x) == old(self).peer_ids().contains(
                    x,
                )),
    {
        let ghost s = self.peer_ids();
        let mut i: usize = 0;
        while i < self.peers.len()
            invariant
                0 <= i as int <= s.len(),
                s == self.peer_ids(),
                s == old(self).peer_ids(),
                forall|a: int, b: int| 0 <= a < b < s.len() ==> s[a] != s[b],
                forall|k: int| 0 <= k < i as int ==> s[k] != id,
            decreases self.peers.len() - i,
        {
            if self.peers[i] == id {
                self.peers.remove(i);
                proof {
                    lemma_registry_removal(s, id, i as int);
                }
                return ;
            }
            i = i + 1;
        }
        proof {
            assert(forall|k: int| 0 <= k < s.len() ==> s[k] != id);
            assert(!s.contains(id));
            s.index_of_first_ensures(id);
            assert(s.index_of_first(id) is None);
            assert forall|x: u64| x != id && s.contains(x) implies self.peer_ids().contains(
                x,
            ) by {}
        }
    }
}

/// Removing the first occurrence of `id` from a registry without
/// duplicates keeps the remaining entries, their order and their
/// distinctness, and leaves no occurrence of `id` behind.
proof fn lemma_registry_removal(s: Seq<u64>, id: u64, i: int)
    requires
        0 <= i < s.len(),
        s[i] == id,
        forall|k: int| 0 <= k < i ==> s[k] != id,
        forall|a: int, b: int| 0 <= a < b < s.len() ==> s[a] != s[b],
    ensures
        s.remove_value(id) == s.remove(i),
        !s.remove(i).contains(id),
        forall|a: int, b: int| 0 <= a < b < s.remove(i).len() ==> s.remove(i)[a] != s.remove(i)[b],
        forall|x: u64| x != id ==> (s.remove(i).contains(x) == s.contains(x)),
{
    s.index_of_first_ensures(id);
    assert(s.contains(id));
    let idx = s.index_of_first(id).unwrap();
    assert(s[idx] == id);
    assert(idx == i);
    let t = s.remove(i);
    assert(t.len() == s.len() - 1);
    assert forall|k: int| 0 <= k < t.len() implies t[k] == (if k < i {
        s[k]
    } else {
        s[k + 1]
    }) by {}
    assert forall|k: int| 0 <= k < t.len() implies t[k] != id by {
        if k >= i {
            assert(t[k] == s[k + 1]);
        }
    }
    assert(!t.contains(id));
    assert forall|a: int, b: int| 0 <= a < b < t.len() implies t[a] != t[b] by {}
    assert forall|x: u64| x != id implies (t.contains(x) == s.contains(x)) by {
        if t.contains(x) {
            let k = choose|k: int| 0 <= k < t.len() && t[k] == x;
            if k < i {
                assert(s[k] == x);
            } else {
                assert(s[k + 1] == x);
            }
        }
        if s.contains(x) {
            let k = choose|k: int| 0 <= k < s.len() && s[k] == x;
            if k < i {
                assert(t[k] == x);
            } else if k > i {
                assert(t[k - 1] == x);
            }
        }
    }
}

} // verus!
