//! Clients of the proxy, and where a PROXY command may lead.

use vstd::prelude::*;
use std::collections::HashMap;
use std::sync::Arc;

use crate::addr::{IpAddress, Ipv6Address, SocketAddress};
use crate::net::code::{proxy_address, network_address};

verus! {

broadcast use vstd::std_specs::hash::group_hash_axioms;

/// A client's number, unique among the clients the service has seen.
pub type ClientId = u64;

/// One connected client.
pub struct ProxyClient {
    id: ClientId,
    remote_addr: SocketAddress,
}

/// A shared handle on a connected client.
pub struct ProxyClientHandle {
    id: ClientId,
    inner: Arc<ProxyClient>,
}

impl Clone for ProxyClientHandle {
    fn clone(&self) -> (r: Self)
        ensures
            r.spec_id() == self.spec_id(),
    {
        ProxyClientHandle { id: self.id, inner: Arc::clone(&self.inner) }
    }
}

impl ProxyClientHandle {
    /// The number of the client this handle is for.
    pub closed spec fn spec_id(&self) -> ClientId {
        self.id
    }

    pub fn id(&self) -> (r: u64)
        ensures
            r == self.spec_id(),
    {
        self.id
    }
}

impl ProxyClient {
    /// A client numbered `id`, connected from `remote_addr`.
    pub fn new(id: ClientId, remote_addr: SocketAddress) -> (c: Self)
        ensures
            c.spec_id() == id,
            c.spec_remote_addr() == remote_addr,
    {
        Self { id, remote_addr }
    }

    pub closed spec fn spec_id(&self) -> ClientId {
        self.id
    }

    pub closed spec fn spec_remote_addr(&self) -> SocketAddress {
        self.remote_addr
    }

    /// A handle that can be shared, with the same number.
    pub fn into_handle(self) -> (h: ProxyClientHandle)
        ensures
            h.spec_id() == self.spec_id(),
    {
        ProxyClientHandle { id: self.id, inner: Arc::new(self) }
    }

    pub fn id(&self) -> (r: ClientId)
        ensures
            r == self.spec_id(),
    {
        self.id
    }

    /// Where the client connected from.
    pub fn remote_addr(&self) -> (r: SocketAddress)
        ensures
            r == self.spec_remote_addr(),
    {
        self.remote_addr
    }
}

/// The proxy's own services that a PROXY command can reach.
#[derive(Clone, Copy, Debug, PartialEq, Eq, Structural)]
pub enum OwnService {
    /// The HTTP CONNECT proxy, at `[fd00::1]:8080`.
    Connect,
    /// The resolver, at `[fd00::1]:53`.
    Dns,
}

/// Why a PROXY target was refused.
#[derive(Clone, Copy, Debug, PartialEq, Eq, Structural)]
pub enum RouteError {
    /// Only the proxy's own services can be reached with PROXY.
    NotOwnService,
}

/// The address of the HTTP CONNECT proxy on the private network.
pub open spec fn spec_connect_proxy() -> SocketAddress {
    SocketAddress { ip: IpAddress::V6(Ipv6Address { bits: network_address(1) }), port: 8080 }
}

/// The address of the resolver on the private network.
pub open spec fn spec_dns_proxy() -> SocketAddress {
    SocketAddress { ip: IpAddress::V6(Ipv6Address { bits: network_address(1) }), port: 53 }
}

/// The address of the HTTP CONNECT proxy, `[fd00::1]:8080`.
pub fn connect_proxy_address() -> (a: SocketAddress)
    ensures
        a == spec_connect_proxy(),
{
    SocketAddress { ip: IpAddress::V6(proxy_address()), port: 8080 }
}

/// The address of the resolver, `[fd00::1]:53`.
pub fn dns_proxy_address() -> (a: SocketAddress)
    ensures
        a == spec_dns_proxy(),
{
    SocketAddress { ip: IpAddress::V6(proxy_address()), port: 53 }
}

/// The clients of the proxy, by number.
pub struct ProxyService {
    clients: HashMap<ClientId, ProxyClientHandle>,
    next_id: ClientId,
}

impl ProxyService {
    /// The numbers of the clients connected now.
    pub closed spec fn clients(self) -> Set<ClientId> {
        self.clients@.dom()
    }

    /// The number the next client will get.
    pub closed spec fn next_id(self) -> ClientId {
        self.next_id
    }

    /// Every client is filed under its own number, and numbers are handed
    /// out in increasing order from 1.
    pub closed spec fn wf(self) -> bool {
        &&& forall|id: ClientId| #[trigger]
            self.clients@.contains_key(id) ==> self.clients@[id].spec_id() == id && 0 < id
                < self.next_id
        &&& self.next_id >= 1
    }

    /// A service with no clients.
    pub fn new() -> (s: Self)
        ensures
            s.wf(),
            s.clients() == Set::<ClientId>::empty(),
            s.next_id() == 1,
    {
        let s = Self { clients: HashMap::new(), next_id: 1 };
        assert(s.clients() =~= Set::<ClientId>::empty());
        s
    }

    /// Registers a client that connected from `remote_addr`, under the next
    /// number. Numbers are never reused while they last: a new client's
    /// number is not that of any client connected now, as long as fewer
    /// than 2^64 - 1 clients have connected.
    pub fn new_client(&mut self, remote_addr: SocketAddress) -> (h: ProxyClientHandle)
        requires
            old(self).wf(),
            old(self).next_id() < u64::MAX,
        ensures
            final(self).wf(),
            h.spec_id() == old(self).next_id(),
            !old(self).clients().contains(h.spec_id()),
            final(self).clients() == old(self).clients().insert(h.spec_id()),
            final(self).next_id() == old(self).next_id() + 1,
    {
        let id: ClientId = self.next_id;
        self.next_id = self.next_id + 1;
        let client = ProxyClient::new(id, remote_addr).into_handle();
        self.clients.insert(id, client.clone());
        assert(self.clients() =~= old(self).clients().insert(id));
        client
    }

    /// Unregisters a client. The client must be registered: removing one
    /// that is not is an integrity error.
    pub fn remove_client(&mut self, client: &ProxyClientHandle)
        requires
            old(self).wf(),
            old(self).clients().contains(client.spec_id()),
        ensures
            final(self).wf(),
            final(self).clients() == old(self).clients().remove(client.spec_id()),
            final(self).next_id() == old(self).next_id(),
    {
        let id: ClientId = client.id();
        self.clients.remove(&id);
        assert(self.clients() =~= old(self).clients().remove(id));
    }

    /// The number the next client will get.
    pub fn peek_next_id(&self) -> (r: ClientId)
        ensures
            r == self.next_id(),
    {
        self.next_id
    }

    /// True when `id` is a registered client.
    pub fn has_client(&self, id: ClientId) -> (r: bool)
        ensures
            r == self.clients().contains(id),
    {
        self.clients.contains_key(&id)
    }

    /// Where a PROXY command to `addr` leads. PROXY reaches the proxy's own
    /// services and nothing else; everything else a client talks to is
    /// UDP, which goes over a bound link.
    pub fn route(&self, addr: SocketAddress) -> (r: Result<OwnService, RouteError>)
        ensures
            r == (if addr == spec_connect_proxy() {
                Ok::<OwnService, RouteError>(OwnService::Connect)
            } else if addr == spec_dns_proxy() {
                Ok(OwnService::Dns)
            } else {
                Err(RouteError::NotOwnService)
            }),
    {
        route_service(addr)
    }
}

/// Where a PROXY command to `addr` leads.
pub fn route_service(addr: SocketAddress) -> (r: Result<OwnService, RouteError>)
    ensures
        r == (if addr == spec_connect_proxy() {
            Ok::<OwnService, RouteError>(OwnService::Connect)
        } else if addr == spec_dns_proxy() {
            Ok(OwnService::Dns)
        } else {
            Err(RouteError::NotOwnService)
        }),
{
    if addr == connect_proxy_address() {
        Ok(OwnService::Connect)
    } else if addr == dns_proxy_address() {
        Ok(OwnService::Dns)
    } else {
        Err(RouteError::NotOwnService)
    }
}

} // verus!
