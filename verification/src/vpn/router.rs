//! Finding a VPN by its code, and routing packets inside one.

use vstd::prelude::*;
use std::collections::HashMap;

use crate::addr::{IpAddress, SocketAddress};
use crate::codec::{be_value, lemma_be_value_bound, lemma_be_value_injective, lemma_pow256_values};
use crate::vpn::packet::{VpnPacket, VpnPacketError, VpnPacketUdp, packet1_bytes, parse_packet1};
use crate::vpn::vpn::{VpnCode, VpnConfig};

verus! {

broadcast use vstd::std_specs::hash::group_hash_axioms;

/// The VPNs this proxy runs, by code; `H` is the handle on one.
pub struct VPNRouter<H> {
    codes: HashMap<u64, H>,
}

impl<H> VPNRouter<H> {
    /// The VPN handles, by the bytes of their codes.
    pub closed spec fn codes(self) -> Map<Seq<u8>, H> {
        Map::new(
            |c: Seq<u8>| c.len() == 6 && self.codes@.contains_key(be_value(c) as u64),
            |c: Seq<u8>| self.codes@[be_value(c) as u64],
        )
    }

    /// No VPNs.
    pub fn new() -> (r: Self)
        ensures
            r.codes() == Map::<Seq<u8>, H>::empty(),
    {
        let r = VPNRouter { codes: HashMap::new() };
        assert(r.codes() =~= Map::<Seq<u8>, H>::empty());
        r
    }

    /// Files a started VPN under both its codes: `server` is reached with
    /// the server code, `client` with the client code.
    pub fn add_vpn(&mut self, config: &VpnConfig, server: H, client: H)
        ensures
            final(self).codes() == old(self).codes().insert(config.server_code@, server).insert(
                config.client_code@,
                client,
            ),
    {
        let s: u64 = config.server_code.key();
        let c: u64 = config.client_code.key();
        self.codes.insert(s, server);
        self.codes.insert(c, client);
        proof {
            let target = old(self).codes().insert(config.server_code@, server).insert(
                config.client_code@,
                client,
            );
            assert forall|k: Seq<u8>| #[trigger] self.codes().contains_key(k) <==> target.contains_key(k) by {
                lemma_be_value_bound(k);
                lemma_pow256_values();
                if k.len() == 6 && be_value(k) == be_value(config.server_code@) {
                    lemma_be_value_injective(k, config.server_code@);
                }
                if k.len() == 6 && be_value(k) == be_value(config.client_code@) {
                    lemma_be_value_injective(k, config.client_code@);
                }
            }
            assert forall|k: Seq<u8>| #[trigger] self.codes().contains_key(k) implies self.codes()[k]
                == target[k] by {
                lemma_be_value_bound(k);
                lemma_pow256_values();
                if k.len() == 6 && be_value(k) == be_value(config.server_code@) {
                    lemma_be_value_injective(k, config.server_code@);
                }
                if k.len() == 6 && be_value(k) == be_value(config.client_code@) {
                    lemma_be_value_injective(k, config.client_code@);
                }
            }
            assert(self.codes() =~= target);
        }
    }

    /// The VPN that `code` joins, if any.
    pub fn get(&self, code: &VpnCode) -> (r: Option<&H>)
        ensures
            r is Some == self.codes().contains_key(code@),
            r matches Some(h) ==> *h == self.codes()[code@],
    {
        let k: u64 = code.key();
        self.codes.get(&k)
    }
}

/// A fresh VPN for `game`, with a random server code and client code.
/// The two codes are always different: a client code equal to the
/// server code would let a client join as the server, and would file the
/// two handles under one code. Should the draws ever agree, the client
/// code is the server code with its lowest bit flipped.
pub fn new_vpn_config(game: &str) -> (c: VpnConfig)
    ensures
        c.game@ == game@,
        c.server_code@.len() == 6,
        c.client_code@.len() == 6,
        c.server_code@ != c.client_code@,
{
    let server_code = VpnCode::new();
    let drawn = VpnCode::new();
    let client_code = if drawn.key() == server_code.key() {
        proof {
            lemma_be_value_injective(drawn@, server_code@);
        }
        drawn.other()
    } else {
        drawn
    };
    VpnConfig { server_code, client_code, game: game.to_owned() }
}

/// Filing a VPN whose two codes differ (as every `new_vpn_config` gives)
/// finds the server's handle by the server code and the client's by the
/// client code, whatever was filed before.
pub proof fn lemma_add_vpn_finds_both<H>(
    before: VPNRouter<H>,
    after: VPNRouter<H>,
    config: VpnConfig,
    server: H,
    client: H,
)
    requires
        config.server_code@ != config.client_code@,
        after.codes() == before.codes().insert(config.server_code@, server).insert(
            config.client_code@,
            client,
        ),
    ensures
        after.codes().contains_key(config.server_code@),
        after.codes()[config.server_code@] == server,
        after.codes().contains_key(config.client_code@),
        after.codes()[config.client_code@] == client,
{
}

/// Where the datagrams for each address inside a VPN go; `T` is the handle
/// on the client that holds the address. Addresses are filed by family,
/// then by IP address, then by port.
pub struct VpnRoutes<T> {
    v4: HashMap<u32, HashMap<u16, T>>,
    v6: HashMap<u128, HashMap<u16, T>>,
}

/// What the VPN's routing task does with one packet.
pub enum VpnStep {
    /// Stop routing.
    Stop,
    /// Nothing more to do for this packet.
    Done,
    /// Send `bytes` to the client holding `to`.
    Deliver { to: SocketAddress, bytes: Vec<u8> },
}

impl<T> VpnRoutes<T> {
    /// The table, by address.
    pub closed spec fn routes(self) -> Map<SocketAddress, T> {
        Map::new(
            |a: SocketAddress| match a.ip {
                IpAddress::V4(v) => self.v4@.contains_key(v.bits) && self.v4@[v.bits]@.contains_key(a.port),
                IpAddress::V6(v) => self.v6@.contains_key(v.bits) && self.v6@[v.bits]@.contains_key(a.port),
            },
            |a: SocketAddress| match a.ip {
                IpAddress::V4(v) => self.v4@[v.bits]@[a.port],
                IpAddress::V6(v) => self.v6@[v.bits]@[a.port],
            },
        )
    }

    /// An empty table.
    pub fn new() -> (r: Self)
        ensures
            r.routes() == Map::<SocketAddress, T>::empty(),
    {
        let r = VpnRoutes { v4: HashMap::new(), v6: HashMap::new() };
        assert(r.routes() =~= Map::<SocketAddress, T>::empty());
        r
    }

    /// The handle for `addr`, if any.
    pub fn get(&self, addr: &SocketAddress) -> (r: Option<&T>)
        ensures
            r is Some == self.routes().contains_key(*addr),
            r matches Some(t) ==> *t == self.routes()[*addr],
    {
        match addr.ip {
            IpAddress::V4(v) => match self.v4.get(&v.bits) {
                Some(ports) => ports.get(&addr.port),
                None => None,
            },
            IpAddress::V6(v) => match self.v6.get(&v.bits) {
                Some(ports) => ports.get(&addr.port),
                None => None,
            },
        }
    }

    /// Removes `addr` from the table.
    pub fn remove(&mut self, addr: &SocketAddress)
        ensures
            final(self).routes() == old(self).routes().remove(*addr),
    {
        let ghost before = self.routes();
        match addr.ip {
            IpAddress::V4(v) => {
                if let Some(mut ports) = self.v4.remove(&v.bits) {
                    ports.remove(&addr.port);
                    self.v4.insert(v.bits, ports);
                }
            },
            IpAddress::V6(v) => {
                if let Some(mut ports) = self.v6.remove(&v.bits) {
                    ports.remove(&addr.port);
                    self.v6.insert(v.bits, ports);
                }
            },
        }
        assert(self.routes() =~= before.remove(*addr));
    }

    /// Sends the datagrams for `addr` to `target`, in place of whoever held
    /// it before.
    pub fn add_route(&mut self, addr: SocketAddress, target: T)
        ensures
            final(self).routes() == old(self).routes().insert(addr, target),
    {
        let ghost before = self.routes();
        match addr.ip {
            IpAddress::V4(v) => {
                let mut ports = match self.v4.remove(&v.bits) {
                    Some(ports) => ports,
                    None => HashMap::new(),
                };
                ports.insert(addr.port, target);
                self.v4.insert(v.bits, ports);
            },
            IpAddress::V6(v) => {
                let mut ports = match self.v6.remove(&v.bits) {
                    Some(ports) => ports,
                    None => HashMap::new(),
                };
                ports.insert(addr.port, target);
                self.v6.insert(v.bits, ports);
            },
        }
        assert(self.routes() =~= before.insert(addr, target));
    }

    /// After the routing task tried to send to the holder of `to`: a holder
    /// that is gone (`sent` false) loses its route, as its client
    /// disconnected.
    pub fn delivered(&mut self, to: &SocketAddress, sent: bool)
        ensures
            final(self).routes() == (if sent {
                old(self).routes()
            } else {
                old(self).routes().remove(*to)
            }),
    {
        if !sent {
            self.remove(to);
        }
    }

    /// Decides what the routing task does with one packet. A stop ends the
    /// task; a departed client loses its route; a datagram goes, encoded,
    /// to whoever holds its destination, and is dropped when nobody does.
    /// A datagram must come from an IPv4 address, as leases fill it in.
    pub fn step(&mut self, packet: VpnPacket) -> (r: VpnStep)
        requires
            packet matches VpnPacket::Udp(p) ==> p.from.ip is V4,
        ensures
            match packet {
                VpnPacket::VpnStop => r is Stop && final(self).routes() == old(self).routes(),
                VpnPacket::VpnDisconnect(addr) => r is Done && final(self).routes() == old(
                    self,
                ).routes().remove(addr),
                VpnPacket::Udp(p) => {
                    &&& final(self).routes() == old(self).routes()
                    &&& if old(self).routes().contains_key(p.to) {
                        r matches VpnStep::Deliver { to, bytes } && to == p.to && bytes@
                            == packet1_bytes(p.from.ip->V4_0.bits, p.from.port, p.data@)
                    } else {
                        r is Done
                    }
                },
            },
    {
        match packet {
            VpnPacket::VpnStop => VpnStep::Stop,
            VpnPacket::VpnDisconnect(addr) => {
                self.remove(&addr);
                VpnStep::Done
            },
            VpnPacket::Udp(p) => {
                if self.get(&p.to).is_some() {
                    VpnStep::Deliver { to: p.to, bytes: p.encode1() }
                } else {
                    VpnStep::Done
                }
            },
        }
    }
}

/// A packet a client sent through its lease at `addr`: decoded, and marked
/// as coming from `addr`.
pub fn lease_packet(addr: SocketAddress, raw: &[u8]) -> (r: Result<VpnPacket, VpnPacketError>)
    ensures
        match r {
            Ok(packet) => packet matches VpnPacket::Udp(p) && p.from == addr && p.to.ip is V4
                && parse_packet1(raw@) == Ok::<(u32, u16, Seq<u8>), VpnPacketError>(
                (p.to.ip->V4_0.bits, p.to.port, p.data@),
            ),
            Err(e) => parse_packet1(raw@) == Err::<(u32, u16, Seq<u8>), VpnPacketError>(e),
        },
{
    let mut packet = VpnPacketUdp::decode1(raw)?;
    packet.from = addr;
    Ok(VpnPacket::Udp(packet))
}

} // verus!
