//! The endpoints that the tun device has opened sockets for. A packet to an
//! endpoint that is already served does not open a second socket, and
//! closing a socket frees its endpoint again.

use vstd::prelude::*;
use crate::packet::Endpoint;

verus! {

/// A set of endpoints, kept as a vector without repetitions.
pub struct EndpointSet {
    items: Vec<Endpoint>,
}

impl View for EndpointSet {
    type V = Set<Endpoint>;

    closed spec fn view(&self) -> Set<Endpoint> {
        self.items@.to_set()
    }
}

impl EndpointSet {
    /// No endpoint is held twice.
    pub closed spec fn wf(&self) -> bool {
        self.items@.no_duplicates()
    }

    /// The empty set.
    pub fn new() -> (set: EndpointSet)
        ensures
            set.wf(),
            set@ == Set::<Endpoint>::empty(),
    {
        let set = EndpointSet { items: Vec::new() };
        assert(set@ =~= Set::<Endpoint>::empty());
        set
    }

    fn position(&self, endpoint: &Endpoint) -> (at: Option<usize>)
        ensures
            match at {
                Some(i) => i < self.items@.len() && self.items@[i as int] == *endpoint,
                None => !self.items@.contains(*endpoint),
            },
    {
        let mut i: usize = 0;
        while i < self.items.len()
            invariant
                i <= self.items@.len(),
                forall|k: int| 0 <= k < i ==> self.items@[k] != *endpoint,
            decreases self.items@.len() - i,
        {
            if self.items[i] == *endpoint {
                return Some(i);
            }
            i += 1;
        }
        None
    }

    /// Whether `endpoint` is in the set.
    pub fn contains(&self, endpoint: &Endpoint) -> (found: bool)
        ensures
            found == self@.contains(*endpoint),
    {
        self.position(endpoint).is_some()
    }

    /// Adds `endpoint`; says whether it was new.
    pub fn insert(&mut self, endpoint: Endpoint) -> (added: bool)
        requires
            old(self).wf(),
        ensures
            final(self).wf(),
            added == !old(self)@.contains(endpoint),
            final(self)@ == old(self)@.insert(endpoint),
    {
        if self.position(&endpoint).is_some() {
            assert(self@ =~= self@.insert(endpoint));
            return false;
        }
        let ghost before = self.items@;
        self.items.push(endpoint);
        assert(self.items@ == before.push(endpoint));
        assert forall|x: Endpoint| self@.contains(x) == old(self)@.insert(endpoint).contains(x) by {
            if before.contains(x) {
                let k = choose|k: int| 0 <= k < before.len() && before[k] == x;
                assert(self.items@[k] == x);
            }
            if self.items@.contains(x) && x != endpoint {
                let k = choose|k: int| 0 <= k < self.items@.len() && self.items@[k] == x;
                assert(k < before.len());
                assert(before[k] == x);
            }
            if x == endpoint {
                assert(self.items@[before.len() as int] == x);
            }
        }
        assert(self@ =~= old(self)@.insert(endpoint));
        true
    }

    /// Removes `endpoint`; says whether it was there.
    pub fn remove(&mut self, endpoint: &Endpoint) -> (removed: bool)
        requires
            old(self).wf(),
        ensures
            final(self).wf(),
            removed == old(self)@.contains(*endpoint),
            final(self)@ == old(self)@.remove(*endpoint),
    {
        match self.position(endpoint) {
            None => {
                assert(self@ =~= self@.remove(*endpoint));
                false
            },
            Some(i) => {
                let ghost before = self.items@;
                self.items.remove(i);
                assert(self.items@ == before.remove(i as int));
                assert forall|x: Endpoint| self@.contains(x) == old(self)@.remove(*endpoint).contains(
                    x,
                ) by {
                    if self.items@.contains(x) {
                        let k = choose|k: int| 0 <= k < self.items@.len() && self.items@[k] == x;
                        if k < i {
                            assert(before[k] == x);
                        } else {
                            assert(before[k + 1] == x);
                        }
                    }
                    if before.contains(x) && x != *endpoint {
                        let k = choose|k: int| 0 <= k < before.len() && before[k] == x;
                        assert(k != i);
                        if k < i {
                            assert(self.items@[k] == x);
                        } else {
                            assert(self.items@[k - 1] == x);
                        }
                    }
                }
                assert(self@ =~= old(self)@.remove(*endpoint));
                true
            },
        }
    }
}

/// The TCP and the UDP endpoints that have a socket on the device.
pub struct EndpointRegistry {
    tcp: EndpointSet,
    udp: EndpointSet,
}

impl EndpointRegistry {
    /// Both sets are well formed.
    pub closed spec fn wf(&self) -> bool {
        self.tcp.wf() && self.udp.wf()
    }

    /// The endpoints with a listening TCP socket.
    pub closed spec fn tcp_endpoints(&self) -> Set<Endpoint> {
        self.tcp@
    }

    /// The endpoints with a bound UDP socket.
    pub closed spec fn udp_endpoints(&self) -> Set<Endpoint> {
        self.udp@
    }

    /// A registry with no sockets.
    pub fn new() -> (registry: EndpointRegistry)
        ensures
            registry.wf(),
            registry.tcp_endpoints() == Set::<Endpoint>::empty(),
            registry.udp_endpoints() == Set::<Endpoint>::empty(),
    {
        EndpointRegistry { tcp: EndpointSet::new(), udp: EndpointSet::new() }
    }

    /// Whether a TCP socket listens on `endpoint`.
    pub fn has_tcp(&self, endpoint: &Endpoint) -> (found: bool)
        ensures
            found == self.tcp_endpoints().contains(*endpoint),
    {
        self.tcp.contains(endpoint)
    }

    /// Whether a UDP socket is bound to `endpoint`.
    pub fn has_udp(&self, endpoint: &Endpoint) -> (found: bool)
        ensures
            found == self.udp_endpoints().contains(*endpoint),
    {
        self.udp.contains(endpoint)
    }

    /// Records a TCP socket for `endpoint`; `true` when there was none, so
    /// that the caller opens one.
    pub fn ensure_tcp(&mut self, endpoint: Endpoint) -> (open_socket: bool)
        requires
            old(self).wf(),
        ensures
            final(self).wf(),
            open_socket == !old(self).tcp_endpoints().contains(endpoint),
            final(self).tcp_endpoints() == old(self).tcp_endpoints().insert(endpoint),
            final(self).udp_endpoints() == old(self).udp_endpoints(),
    {
        self.tcp.insert(endpoint)
    }

    /// Records a UDP socket for `endpoint`; `true` when there was none, so
    /// that the caller opens one.
    pub fn ensure_udp(&mut self, endpoint: Endpoint) -> (open_socket: bool)
        requires
            old(self).wf(),
        ensures
            final(self).wf(),
            open_socket == !old(self).udp_endpoints().contains(endpoint),
            final(self).udp_endpoints() == old(self).udp_endpoints().insert(endpoint),
            final(self).tcp_endpoints() == old(self).tcp_endpoints(),
    {
        self.udp.insert(endpoint)
    }

    /// Forgets the TCP socket of `endpoint`; says whether there was one.
    pub fn release_tcp(&mut self, endpoint: &Endpoint) -> (was_open: bool)
        requires
            old(self).wf(),
        ensures
            final(self).wf(),
            was_open == old(self).tcp_endpoints().contains(*endpoint),
            final(self).tcp_endpoints() == old(self).tcp_endpoints().remove(*endpoint),
            final(self).udp_endpoints() == old(self).udp_endpoints(),
    {
        self.tcp.remove(endpoint)
    }

    /// Forgets the UDP socket of `endpoint`; says whether there was one.
    pub fn release_udp(&mut self, endpoint: &Endpoint) -> (was_open: bool)
        requires
            old(self).wf(),
        ensures
            final(self).wf(),
            was_open == old(self).udp_endpoints().contains(*endpoint),
            final(self).udp_endpoints() == old(self).udp_endpoints().remove(*endpoint),
            final(self).tcp_endpoints() == old(self).tcp_endpoints(),
    {
        self.udp.remove(endpoint)
    }
}

/// Asking twice for the same endpoint opens one socket: after the first
/// request the endpoint is recorded, so the second one finds it and leaves
/// the set as it is.
pub proof fn law_ensure_idempotent(endpoints: Set<Endpoint>, endpoint: Endpoint)
    ensures
        endpoints.insert(endpoint).contains(endpoint),
        endpoints.insert(endpoint).insert(endpoint) == endpoints.insert(endpoint),
{
    assert(endpoints.insert(endpoint).insert(endpoint) =~= endpoints.insert(endpoint));
}

/// Closing the socket of an endpoint undoes opening it: the endpoint is free
/// again, and a later packet to it opens a new socket.
pub proof fn law_release_undoes_ensure(endpoints: Set<Endpoint>, endpoint: Endpoint)
    requires
        !endpoints.contains(endpoint),
    ensures
        endpoints.insert(endpoint).remove(endpoint) == endpoints,
        !endpoints.insert(endpoint).remove(endpoint).contains(endpoint),
{
    assert(endpoints.insert(endpoint).remove(endpoint) =~= endpoints);
}

} // verus!
