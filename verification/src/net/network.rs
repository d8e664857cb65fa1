//! The table behind the private network: which address was handed to whom,
//! and which ports are bound on it.
//!
//! A client is handed an address and a passcode, and binds ports on that
//! address. A datagram addressed to a bound port goes to whoever bound it;
//! anything else goes out to the internet through a translated socket, and
//! replies come back the same way. The table is generic over `R`, the
//! handle through which a bound port's datagrams reach its client.

use vstd::prelude::*;
use std::collections::HashMap;
use vstd::std_specs::hash::spec_keys_iter;
use vstd::std_specs::iter::IteratorSpec;

use crate::addr::{Ipv6Address, SocketAddress, IpAddress};
use crate::codec::{be_value, lemma_be_value_injective, lemma_be_value_bound, lemma_pow256_values};
use crate::net::code::{Passcode, is_passcode_text, is_network_address, first_group, network_address, PREFIX, RESERVED,
    counter_passcode, lemma_counter_passcode_injective, lemma_client_address_not_reserved};
use vstd::relations::injective_on;
use vstd::set_lib::{set_int_range, lemma_int_range, lemma_map_size, lemma_len_subset};
use crate::net::packet::{Frame, FrameError, frame_bytes, parse_frame, peer_of, MAX_FRAME_PAYLOAD};

verus! {

broadcast use vstd::std_specs::hash::group_hash_axioms;

/// How long an assignment outlives the last port bound on it, in
/// nanoseconds: a day. A client that is playing holds a port the whole
/// time, so it keeps its address for as long as it stays connected.
pub const ASSIGNMENT_TTL_NANOS: u64 = 86_400_000_000_000;

/// A bound port: the address and the port number.
pub type RouteKey = (Ipv6Address, u16);

/// One address handed to one client, and the secret that lets it be used.
pub struct Assignment {
    passcode: Passcode,
    /// Ports currently bound on this address.
    binds: usize,
    /// When a port was last bound or unbound, or the assignment made, in
    /// nanoseconds on the caller's monotonic clock.
    touched: u64,
}

/// What the table records of one assignment.
pub struct AssignmentView {
    pub passcode: Seq<u8>,
    pub binds: nat,
    pub touched: u64,
}

/// The key under which a passcode is filed: the number its sixteen bytes
/// spell.
pub open spec fn passcode_key(p: Seq<u8>) -> u128 {
    be_value(p) as u128
}

/// An assignment that has had nothing bound for a day at time `now`.
/// Elapsed time saturates at zero, as `Instant::duration_since` does.
pub open spec fn is_stale(a: AssignmentView, now: u64) -> bool {
    a.binds == 0 && (if now >= a.touched { now - a.touched } else { 0 }) >= ASSIGNMENT_TTL_NANOS
}

/// Why a port could not be bound.
#[derive(Clone, Copy, Debug, PartialEq, Eq, Structural)]
pub enum BindError {
    /// Port 0 cannot be bound.
    PortZero,
    /// No assignment holds this passcode: it expired, or the proxy never
    /// made it.
    UnknownPasscode,
    /// Someone already holds the port on this address.
    AlreadyBound,
}

/// Every `u16` set has at most 65536 members.
proof fn lemma_port_set_bound(s: Set<u16>)
    requires
        s.finite(),
    ensures
        s.len() <= 0x1_0000,
{
    let all = Set::<u16>::range_inclusive(0, 0xFFFF);
    <u16 as vstd::set_lib::FiniteRange>::range_properties(0, 0xFFFF);
    assert(s.subset_of(all));
    vstd::set_lib::lemma_len_subset(s, all);
}

/// The private network shared by every client of this proxy.
pub struct Network<R> {
    by_address: HashMap<u128, Assignment>,
    by_passcode: HashMap<u128, u128>,
    routes: HashMap<u128, HashMap<u16, R>>,
}

impl<R> Network<R> {
    /// Every assignment, by address.
    pub closed spec fn assignments(self) -> Map<u128, AssignmentView> {
        self.by_address@.map_values(
            |a: Assignment| AssignmentView { passcode: a.passcode@, binds: a.binds as nat, touched: a.touched },
        )
    }

    /// Every bound port, and the handle its datagrams go to.
    pub closed spec fn routes(self) -> Map<(u128, u16), R> {
        Map::new(
            |k: (u128, u16)| self.routes@.contains_key(k.0) && self.routes@[k.0]@.contains_key(k.1),
            |k: (u128, u16)| self.routes@[k.0]@[k.1],
        )
    }

    /// The address a passcode was issued for, if it still stands.
    pub closed spec fn owner(self, p: Seq<u8>) -> Option<u128> {
        if is_passcode_text(p) && self.by_passcode@.contains_key(passcode_key(p)) {
            Some(self.by_passcode@[passcode_key(p)])
        } else {
            None
        }
    }

    /// Ports bound on address `a`.
    closed spec fn bound_count(self, a: u128) -> nat {
        if self.routes@.contains_key(a) {
            self.routes@[a]@.len()
        } else {
            0
        }
    }

    /// The table's invariant: the two indexes agree, every bound port sits
    /// on an assigned address, and each assignment counts its bound ports.
    pub closed spec fn wf(self) -> bool {
        &&& forall|a: u128| #[trigger]
            self.by_address@.contains_key(a) ==> {
                let asg = self.by_address@[a];
                &&& is_passcode_text(asg.passcode@)
                &&& self.by_passcode@.contains_key(passcode_key(asg.passcode@))
                &&& self.by_passcode@[passcode_key(asg.passcode@)] == a
                &&& asg.binds == self.bound_count(a)
            }
        &&& forall|k: u128| #[trigger]
            self.by_passcode@.contains_key(k) ==> {
                &&& self.by_address@.contains_key(self.by_passcode@[k])
                &&& passcode_key(self.by_address@[self.by_passcode@[k]].passcode@) == k
            }
        &&& forall|a: u128| #[trigger]
            self.routes@.contains_key(a) ==> {
                &&& self.by_address@.contains_key(a)
                &&& self.routes@[a]@.len() > 0
            }
    }

    /// Under the invariant, a passcode's owner is exactly the address whose
    /// assignment holds it.
    pub proof fn lemma_owner(self, p: Seq<u8>, a: u128)
        requires
            self.wf(),
        ensures
            self.owner(p) == Some(a) <==> (self.assignments().contains_key(a)
                && self.assignments()[a].passcode == p),
    {
        if self.assignments().contains_key(a) && self.assignments()[a].passcode == p {
            assert(self.by_address@.contains_key(a));
        }
        if self.owner(p) == Some(a) {
            let k = passcode_key(p);
            let q = self.by_address@[a].passcode@;
            lemma_pow256_values();
            lemma_be_value_bound(p);
            lemma_be_value_bound(q);
            lemma_be_value_injective(p, q);
        }
    }

    /// A bound port always sits on an assigned address.
    pub proof fn lemma_routes_assigned(self, k: (u128, u16))
        requires
            self.wf(),
            self.routes().contains_key(k),
        ensures
            self.assignments().contains_key(k.0),
            self.assignments()[k.0].binds > 0,
    {
    }

    /// An empty network.
    pub fn new() -> (n: Self)
        ensures
            n.wf(),
            n.assignments() == Map::<u128, AssignmentView>::empty(),
            n.routes() == Map::<(u128, u16), R>::empty(),
    {
        let n = Network { by_address: HashMap::new(), by_passcode: HashMap::new(), routes: HashMap::new() };
        assert(n.assignments() =~= Map::<u128, AssignmentView>::empty());
        assert(n.routes() =~= Map::<(u128, u16), R>::empty());
        n
    }

    /// True when `address` has been handed out and not expired.
    pub fn has_address(&self, address: &Ipv6Address) -> (r: bool)
        ensures
            r == self.assignments().contains_key(address.bits),
    {
        self.by_address.contains_key(&address.bits)
    }

    /// True when some standing assignment holds `passcode`.
    pub fn has_passcode(&self, passcode: &Passcode) -> (r: bool)
        requires
            self.wf(),
        ensures
            r == (self.owner(passcode@) is Some),
    {
        let k = passcode.key();
        proof {
            lemma_pow256_values();
            lemma_be_value_bound(passcode@);
        }
        self.by_passcode.contains_key(&k)
    }

    /// Files `address` with `passcode` at time `now`, unless either is
    /// already taken; returns whether it did. The proxy alone chooses
    /// addresses, so a client cannot claim one it was not given.
    pub fn try_assign(&mut self, address: Ipv6Address, passcode: Passcode, now: u64) -> (r: bool)
        requires
            old(self).wf(),
        ensures
            final(self).wf(),
            r == !(old(self).assignments().contains_key(address.bits) || old(self).owner(
                passcode@,
            ) is Some),
            r ==> final(self).assignments() == old(self).assignments().insert(
                address.bits,
                AssignmentView { passcode: passcode@, binds: 0, touched: now },
            ),
            !r ==> final(self).assignments() == old(self).assignments(),
            !r ==> *final(self) == *old(self),
            final(self).routes() == old(self).routes(),
    {
        let a: u128 = address.bits;
        let k: u128 = passcode.key();
        proof {
            lemma_pow256_values();
            lemma_be_value_bound(passcode@);
        }
        if self.by_address.contains_key(&a) || self.by_passcode.contains_key(&k) {
            return false;
        }
        let ghost old_self = *self;
        let ghost pv = passcode@;
        self.by_address.insert(a, Assignment { passcode, binds: 0, touched: now });
        self.by_passcode.insert(k, a);
        proof {
            assert(!self.routes@.contains_key(a));
            assert(self.assignments() =~= old_self.assignments().insert(
                a,
                AssignmentView { passcode: pv, binds: 0, touched: now },
            ));
            assert(self.routes() =~= old_self.routes());
            assert forall|b: u128| #[trigger] self.by_address@.contains_key(b) implies {
                let asg = self.by_address@[b];
                &&& is_passcode_text(asg.passcode@)
                &&& self.by_passcode@.contains_key(passcode_key(asg.passcode@))
                &&& self.by_passcode@[passcode_key(asg.passcode@)] == b
                &&& asg.binds == self.bound_count(b)
            } by {
                if b != a {
                    assert(old_self.by_address@.contains_key(b));
                    let q = old_self.by_address@[b].passcode@;
                    assert(old_self.by_passcode@.contains_key(passcode_key(q)));
                }
            }
            assert forall|j: u128| #[trigger] self.by_passcode@.contains_key(j) implies {
                &&& self.by_address@.contains_key(self.by_passcode@[j])
                &&& passcode_key(self.by_address@[self.by_passcode@[j]].passcode@) == j
            } by {
                if j != k {
                    assert(old_self.by_passcode@.contains_key(j));
                    assert(self.by_passcode@[j] != a);
                }
            }
        }
        true
    }

    /// Claims `port` on the address that `passcode` was issued for, sending
    /// its datagrams to `relay`, at time `now`.
    ///
    /// Fails on port 0, on a passcode that no standing assignment holds
    /// (which is how a client finds out that its assignment expired or that
    /// the proxy restarted, and its cue to ask for a new address), and on a
    /// port someone already holds; the table is then unchanged.
    pub fn bind(&mut self, passcode: &Passcode, port: u16, relay: R, now: u64) -> (r: Result<
        RouteKey,
        BindError,
    >)
        requires
            old(self).wf(),
        ensures
            final(self).wf(),
            port == 0 ==> r == Err::<RouteKey, BindError>(BindError::PortZero),
            port != 0 && old(self).owner(passcode@) is None ==> r == Err::<RouteKey, BindError>(
                BindError::UnknownPasscode,
            ),
            port != 0 && (old(self).owner(passcode@) matches Some(a) && old(self).routes().contains_key(
                (a, port),
            )) ==> r == Err::<RouteKey, BindError>(BindError::AlreadyBound),
            port != 0 && (old(self).owner(passcode@) matches Some(a) && !old(self).routes().contains_key(
                (a, port),
            )) ==> r is Ok,
            r is Err ==> *final(self) == *old(self),
            r matches Ok(key) ==> {
                &&& port != 0
                &&& old(self).owner(passcode@) == Some(key.0.bits)
                &&& key.1 == port
                &&& !old(self).routes().contains_key((key.0.bits, port))
                &&& final(self).routes() == old(self).routes().insert((key.0.bits, port), relay)
                &&& final(self).assignments() == old(self).assignments().insert(
                    key.0.bits,
                    AssignmentView {
                        passcode: passcode@,
                        binds: old(self).assignments()[key.0.bits].binds + 1,
                        touched: now,
                    },
                )
            },
    {
        if port == 0 {
            return Err(BindError::PortZero);
        }
        let k: u128 = passcode.key();
        proof {
            lemma_pow256_values();
            lemma_be_value_bound(passcode@);
        }
        let a: u128 = match self.by_passcode.get(&k) {
            Some(a) => *a,
            None => {
                return Err(BindError::UnknownPasscode);
            },
        };
        let taken = match self.routes.get(&a) {
            Some(ports) => ports.contains_key(&port),
            None => false,
        };
        if taken {
            return Err(BindError::AlreadyBound);
        }
        let ghost old_self = *self;
        proof {
            old_self.lemma_owner(passcode@, a);
            if old_self.routes@.contains_key(a) {
                lemma_port_set_bound(old_self.routes@[a]@.dom());
            }
        }
        let mut asg = match self.by_address.remove(&a) {
            Some(asg) => asg,
            None => vstd::pervasive::unreached(),
        };
        asg.binds = asg.binds + 1;
        asg.touched = now;
        self.by_address.insert(a, asg);
        let mut ports = match self.routes.remove(&a) {
            Some(ports) => ports,
            None => HashMap::new(),
        };
        let ghost old_ports = ports@;
        ports.insert(port, relay);
        self.routes.insert(a, ports);
        proof {
            assert(ports@.dom() =~= old_ports.dom().insert(port));
            assert(self.bound_count(a) == old_self.bound_count(a) + 1);
            assert(self.assignments() =~= old_self.assignments().insert(
                a,
                AssignmentView {
                    passcode: passcode@,
                    binds: old_self.assignments()[a].binds + 1,
                    touched: now,
                },
            ));
            assert(self.routes() =~= old_self.routes().insert((a, port), relay));
            assert forall|b: u128| #[trigger] self.by_address@.contains_key(b) implies {
                let asg = self.by_address@[b];
                &&& is_passcode_text(asg.passcode@)
                &&& self.by_passcode@.contains_key(passcode_key(asg.passcode@))
                &&& self.by_passcode@[passcode_key(asg.passcode@)] == b
                &&& asg.binds == self.bound_count(b)
            } by {
                assert(old_self.by_address@.contains_key(b));
                if b != a {
                    assert(self.bound_count(b) == old_self.bound_count(b));
                }
            }
            assert forall|j: u128| #[trigger] self.by_passcode@.contains_key(j) implies {
                &&& self.by_address@.contains_key(self.by_passcode@[j])
                &&& passcode_key(self.by_address@[self.by_passcode@[j]].passcode@) == j
            } by {
                assert(old_self.by_passcode@.contains_key(j));
            }
            assert forall|b: u128| #[trigger] self.routes@.contains_key(b) implies {
                &&& self.by_address@.contains_key(b)
                &&& self.routes@[b]@.len() > 0
            } by {
                if b != a {
                    assert(old_self.routes@.contains_key(b));
                }
            }
        }
        Ok((Ipv6Address { bits: a }, port))
    }

    /// Releases a bound port at time `now`; returns whether it was bound.
    /// The assignment it sat on counts one port fewer.
    pub fn unbind(&mut self, key: &RouteKey, now: u64) -> (r: bool)
        requires
            old(self).wf(),
        ensures
            final(self).wf(),
            r == old(self).routes().contains_key((key.0.bits, key.1)),
            final(self).routes() == old(self).routes().remove((key.0.bits, key.1)),
            !r ==> *final(self) == *old(self),
            r ==> final(self).assignments() == old(self).assignments().insert(
                key.0.bits,
                AssignmentView {
                    passcode: old(self).assignments()[key.0.bits].passcode,
                    binds: (old(self).assignments()[key.0.bits].binds - 1) as nat,
                    touched: now,
                },
            ),
    {
        let a: u128 = key.0.bits;
        let port: u16 = key.1;
        let bound = match self.routes.get(&a) {
            Some(ports) => ports.contains_key(&port),
            None => false,
        };
        if !bound {
            proof {
                assert(self.routes() =~= self.routes().remove((a, port)));
            }
            return false;
        }
        let ghost old_self = *self;
        let mut ports = match self.routes.remove(&a) {
            Some(ports) => ports,
            None => vstd::pervasive::unreached(),
        };
        let ghost old_ports = ports@;
        ports.remove(&port);
        if ports.len() > 0 {
            self.routes.insert(a, ports);
        }
        let mut asg = match self.by_address.remove(&a) {
            Some(asg) => asg,
            None => vstd::pervasive::unreached(),
        };
        assert(asg.binds == old_ports.len());
        asg.binds = asg.binds - 1;
        asg.touched = now;
        self.by_address.insert(a, asg);
        proof {
            assert(ports@.dom() =~= old_ports.dom().remove(port));
            assert(self.bound_count(a) == old_self.bound_count(a) - 1);
            assert(self.assignments() =~= old_self.assignments().insert(
                a,
                AssignmentView {
                    passcode: old_self.assignments()[a].passcode,
                    binds: (old_self.assignments()[a].binds - 1) as nat,
                    touched: now,
                },
            ));
            assert(self.routes() =~= old_self.routes().remove((a, port)));
            assert forall|b: u128| #[trigger] self.by_address@.contains_key(b) implies {
                let asg = self.by_address@[b];
                &&& is_passcode_text(asg.passcode@)
                &&& self.by_passcode@.contains_key(passcode_key(asg.passcode@))
                &&& self.by_passcode@[passcode_key(asg.passcode@)] == b
                &&& asg.binds == self.bound_count(b)
            } by {
                assert(old_self.by_address@.contains_key(b));
                if b != a {
                    assert(self.bound_count(b) == old_self.bound_count(b));
                }
            }
            assert forall|j: u128| #[trigger] self.by_passcode@.contains_key(j) implies {
                &&& self.by_address@.contains_key(self.by_passcode@[j])
                &&& passcode_key(self.by_address@[self.by_passcode@[j]].passcode@) == j
            } by {
                assert(old_self.by_passcode@.contains_key(j));
            }
            assert forall|b: u128| #[trigger] self.routes@.contains_key(b) implies {
                &&& self.by_address@.contains_key(b)
                &&& self.routes@[b]@.len() > 0
            } by {
                if b != a {
                    assert(old_self.routes@.contains_key(b));
                }
            }
        }
        true
    }

    /// The handle of whoever holds `to`, if anyone does.
    pub fn relay_for(&self, to: &RouteKey) -> (r: Option<&R>)
        ensures
            r is Some == self.routes().contains_key((to.0.bits, to.1)),
            r matches Some(relay) ==> *relay == self.routes()[(to.0.bits, to.1)],
    {
        match self.routes.get(&to.0.bits) {
            Some(ports) => ports.get(&to.1),
            None => None,
        }
    }

    /// A datagram from `from` to `to`, both on the private network: the
    /// frame that tells its receiver where it came from, and the handle of
    /// whoever holds `to`. A datagram with nowhere to go is dropped (`None`),
    /// as any other UDP datagram sent to nobody would be. Fails only when
    /// the datagram is too large for a frame.
    pub fn deliver(&self, from: &RouteKey, to: &RouteKey, data: Vec<u8>) -> (r: Result<
        Option<(&R, Vec<u8>)>,
        FrameError,
    >)
        ensures
            data@.len() > MAX_FRAME_PAYLOAD ==> r == Err::<Option<(&R, Vec<u8>)>, FrameError>(
                FrameError::TooLarge,
            ),
            data@.len() <= MAX_FRAME_PAYLOAD ==> (r matches Ok(found) && (found is Some
                == self.routes().contains_key((to.0.bits, to.1)))),
            r matches Ok(Some((relay, bytes))) ==> {
                &&& *relay == self.routes()[(to.0.bits, to.1)]
                &&& bytes@ == frame_bytes(from.0.bits, from.1, data@)
            },
    {
        let ghost d = data@;
        let out = Frame::new(from.0, from.1, data).encode()?;
        match self.relay_for(to) {
            Some(relay) => Ok(Some((relay, out))),
            None => Ok(None),
        }
    }

    /// Forgets the assignment at `address`, whose binds are zero; returns
    /// whether there was one.
    fn forget(&mut self, address: u128) -> (r: bool)
        requires
            old(self).wf(),
            old(self).assignments().contains_key(address) ==> old(self).assignments()[address].binds
                == 0,
        ensures
            final(self).wf(),
            r == old(self).assignments().contains_key(address),
            final(self).assignments() == old(self).assignments().remove(address),
            final(self).routes() == old(self).routes(),
    {
        let ghost old_self = *self;
        let asg = match self.by_address.remove(&address) {
            Some(asg) => asg,
            None => {
                proof {
                    assert(self.assignments() =~= old_self.assignments().remove(address));
                }
                return false;
            },
        };
        let k: u128 = asg.passcode.key();
        proof {
            lemma_pow256_values();
            lemma_be_value_bound(asg.passcode@);
            assert(!old_self.routes@.contains_key(address));
        }
        self.by_passcode.remove(&k);
        proof {
            assert(self.assignments() =~= old_self.assignments().remove(address));
            assert forall|b: u128| #[trigger] self.by_address@.contains_key(b) implies {
                let asg = self.by_address@[b];
                &&& is_passcode_text(asg.passcode@)
                &&& self.by_passcode@.contains_key(passcode_key(asg.passcode@))
                &&& self.by_passcode@[passcode_key(asg.passcode@)] == b
                &&& asg.binds == self.bound_count(b)
            } by {
                assert(old_self.by_address@.contains_key(b));
            }
            assert forall|j: u128| #[trigger] self.by_passcode@.contains_key(j) implies {
                &&& self.by_address@.contains_key(self.by_passcode@[j])
                &&& passcode_key(self.by_address@[self.by_passcode@[j]].passcode@) == j
            } by {
                assert(old_self.by_passcode@.contains_key(j));
            }
            assert forall|b: u128| #[trigger] self.routes@.contains_key(b) implies {
                &&& self.by_address@.contains_key(b)
                &&& self.routes@[b]@.len() > 0
            } by {
                assert(old_self.routes@.contains_key(b));
            }
        }
        true
    }

    /// Forgets every assignment that has had nothing bound for a day at
    /// time `now`. Called whenever an address is handed out, so the table
    /// is bounded by how busy the proxy is rather than by how long it has
    /// been up. An assignment with a bound port is never forgotten.
    pub fn expire(&mut self, now: u64)
        requires
            old(self).wf(),
        ensures
            final(self).wf(),
            final(self).assignments() == old(self).assignments().filter_keys(
                |a: u128| !is_stale(old(self).assignments()[a], now),
            ),
            final(self).routes() == old(self).routes(),
    {
        let ghost old_self = *self;
        let ghost m = self.assignments();
        let mut stale: Vec<u128> = Vec::new();
        let ghost gone = Set::new(|a: u128| m.contains_key(a) && is_stale(m[a], now));
        for a in it: self.by_address.keys()
            invariant
                m == self.assignments(),
                gone == Set::new(|a: u128| m.contains_key(a) && is_stale(m[a], now)),
                it.seq() == spec_keys_iter(&self.by_address).remaining(),
                forall|b: u128| #[trigger]
                    gone.contains(b) ==> exists|j: int|
                        0 <= j < it.seq().len() && *#[trigger] it.seq()[j] == b,
                forall|j: int| 0 <= j < stale@.len() ==> gone.contains(#[trigger] stale@[j]),
                forall|j: int|
                    0 <= j < it.index() && gone.contains(*it.seq()[j]) ==> stale@.contains(
                        *#[trigger] it.seq()[j],
                    ),
        {
            let ghost old_stale = stale@;
            if let Some(asg) = self.by_address.get(a) {
                let elapsed: u64 = if now >= asg.touched {
                    now - asg.touched
                } else {
                    0
                };
                if asg.binds == 0 && elapsed >= ASSIGNMENT_TTL_NANOS {
                    stale.push(*a);
                    assert(stale@[stale@.len() - 1] == *a);
                } else {
                    assert(!gone.contains(*a));
                }
            } else {
                assert(!gone.contains(*a));
            }
            assert forall|x: u128| old_stale.contains(x) implies stale@.contains(x) by {
                let k = choose|k: int| 0 <= k < old_stale.len() && old_stale[k] == x;
                assert(stale@[k] == x);
            }
        }
        assert forall|b: u128| #[trigger] gone.contains(b) implies stale@.contains(b) by {
        }
        let mut i: usize = 0;
        while i < stale.len()
            invariant
                i <= stale@.len(),
                self.wf(),
                self.routes() == old_self.routes(),
                gone == Set::new(|a: u128| m.contains_key(a) && is_stale(m[a], now)),
                forall|j: int| 0 <= j < stale@.len() ==> gone.contains(#[trigger] stale@[j]),
                forall|b: u128| #[trigger] gone.contains(b) ==> stale@.contains(b),
                self.assignments() == m.filter_keys(|a: u128| !stale@.take(i as int).contains(a)),
            decreases stale@.len() - i,
        {
            let a: u128 = stale[i];
            proof {
                assert(gone.contains(stale@[i as int]));
            }
            self.forget(a);
            proof {
                broadcast use vstd::seq_lib::group_seq_properties;

                assert(stale@.take(i + 1) =~= stale@.take(i as int).push(a));
                assert(self.assignments() =~= m.filter_keys(
                    |b: u128| !stale@.take(i + 1).contains(b),
                ));
            }
            i = i + 1;
        }
        proof {
            assert(stale@.take(stale@.len() as int) =~= stale@);
            assert(self.assignments() =~= m.filter_keys(|a: u128| !is_stale(m[a], now)));
        }
    }

    /// Hands out a fresh address and the passcode that goes with it, at
    /// time `now`, after forgetting stale assignments: the address never
    /// below `RESERVED`, held by no standing assignment, and the passcode
    /// held by none either. Both are drawn at random, and drawn again when
    /// either is already held. After a few draws that all collide (which
    /// chance all but rules out) the lowest free address and the first free
    /// numbered passcode are taken instead, so the answer never waits on
    /// chance. `None` comes back only when every address of the network is
    /// held, which takes a table of 2^64 - 256 assignments.
    pub fn assign(&mut self, now: u64) -> (r: Option<(Ipv6Address, Passcode)>)
        requires
            old(self).wf(),
        ensures
            final(self).wf(),
            final(self).routes() == old(self).routes(),
            ({
                let kept = old(self).assignments().filter_keys(
                    |a: u128| !is_stale(old(self).assignments()[a], now),
                );
                &&& kept.dom().is_empty() ==> r is Some
                &&& kept.dom().len() < 0x1_0000_0000_0000_0000 - RESERVED ==> r is Some
                &&& match r {
                    Some((address, passcode)) => {
                        &&& exists|low: u64| low >= RESERVED && address.bits == network_address(low)
                        &&& address.bits != network_address(1)
                        &&& first_group(address) == PREFIX
                        &&& is_passcode_text(passcode@)
                        &&& !kept.contains_key(address.bits)
                        &&& (forall|a: u128| #[trigger] kept.contains_key(a) ==> kept[a].passcode
                            != passcode@)
                        &&& final(self).assignments() == kept.insert(
                            address.bits,
                            AssignmentView { passcode: passcode@, binds: 0, touched: now },
                        )
                        &&& final(self).owner(passcode@) == Some(address.bits)
                    },
                    None => {
                        &&& final(self).assignments() == kept
                        &&& !kept.dom().is_empty()
                        &&& forall|low: u64| low >= RESERVED ==> #[trigger] kept.contains_key(
                            network_address(low),
                        )
                    },
                }
            }),
    {
        self.expire(now);
        let ghost expired = *self;
        let mut tries: u64 = 0;
        while tries < 8
            invariant
                *self == expired,
                expired.wf(),
                expired.routes() == old(self).routes(),
                expired.assignments() == old(self).assignments().filter_keys(
                    |a: u128| !is_stale(old(self).assignments()[a], now),
                ),
            decreases 8 - tries,
        {
            let address = crate::net::code::random_address();
            let passcode = Passcode::new();
            if self.try_assign(address, passcode.clone(), now) {
                proof {
                    lemma_filed_fresh(expired, *self, address, passcode@, now);
                    lemma_network_address_shape(address);
                }
                return Some((address, passcode));
            }
            tries = tries + 1;
        }
        let address = match self.free_address() {
            Some(address) => address,
            None => {
                proof {
                    assert(self.assignments().contains_key(network_address(RESERVED)));
                    assert(self.assignments().dom().contains(network_address(RESERVED)));
                    assert(self.assignments().dom() =~= self.by_address@.dom());
                    lemma_every_address_held(self.assignments());
                }
                return None;
            },
        };
        let passcode = self.free_passcode();
        let fresh = self.try_assign(address, passcode.clone(), now);
        assert(fresh);
        proof {
            lemma_filed_fresh(expired, *self, address, passcode@, now);
            lemma_network_address_shape(address);
        }
        Some((address, passcode))
    }

    /// The first address `fd00::` + `low`, with `low` counting up from
    /// `RESERVED`, that no assignment holds; `None` when every one is held.
    fn free_address(&self) -> (r: Option<Ipv6Address>)
        ensures
            match r {
                Some(a) => (exists|low: u64| low >= RESERVED && a.bits == network_address(low))
                    && !self.assignments().contains_key(a.bits),
                None => forall|low: u64| low >= RESERVED ==> #[trigger] self.assignments().contains_key(
                    network_address(low),
                ),
            },
    {
        let mut low: u64 = RESERVED;
        loop
            invariant
                RESERVED <= low,
                forall|l: u64| RESERVED <= l < low ==> #[trigger] self.assignments().contains_key(
                    network_address(l),
                ),
            decreases u64::MAX - low,
        {
            let bits: u128 = 0xfd00_0000_0000_0000_0000_0000_0000_0000u128 + low as u128;
            assert(bits == network_address(low));
            if !self.by_address.contains_key(&bits) {
                return Some(Ipv6Address { bits });
            }
            assert(self.assignments().contains_key(network_address(low)));
            if low == u64::MAX {
                return None;
            }
            low = low + 1;
        }
    }

    /// The first numbered passcode (`Passcode::from_counter`) that no
    /// standing assignment holds. There always is one: the table files at
    /// most `usize::MAX` passcodes, and the first `usize::MAX + 1` numbered
    /// passcodes are all different.
    fn free_passcode(&self) -> (p: Passcode)
        requires
            self.wf(),
        ensures
            self.owner(p@) is None,
            is_passcode_text(p@),
    {
        let m: u64 = self.by_passcode.len() as u64;
        proof {
            lemma_free_counter(self.by_passcode@.dom(), m as nat);
        }
        let mut i: u64 = 0;
        loop
            invariant
                i <= m,
                m == self.by_passcode@.dom().len(),
                forall|j: int| 0 <= j < i ==> self.by_passcode@.dom().contains(#[trigger] counter_key(j)),
                exists|j: int| 0 <= j <= m && !self.by_passcode@.dom().contains(#[trigger] counter_key(j)),
            decreases m - i,
        {
            let p = Passcode::from_counter(i);
            if !self.by_passcode.contains_key(&p.key()) {
                return p;
            }
            assert(self.by_passcode@.dom().contains(counter_key(i as int)));
            if i == m {
                proof {
                    let j = choose|j: int| 0 <= j <= m && !self.by_passcode@.dom().contains(#[trigger] counter_key(j));
                    if j < i {
                    } else {
                        assert(j == i);
                    }
                }
                return vstd::pervasive::unreached();
            }
            i = i + 1;
        }
    }
}

/// The key of the passcode numbered `j`.
spec fn counter_key(j: int) -> u128 {
    passcode_key(counter_passcode(j as u64))
}

/// Passcodes numbered within `u64` have different keys.
proof fn lemma_counter_key_injective(a: int, b: int)
    requires
        0 <= a <= u64::MAX,
        0 <= b <= u64::MAX,
        counter_key(a) == counter_key(b),
    ensures
        a == b,
{
    let p = counter_passcode(a as u64);
    let q = counter_passcode(b as u64);
    lemma_pow256_values();
    lemma_be_value_bound(p);
    lemma_be_value_bound(q);
    lemma_be_value_injective(p, q);
    lemma_counter_passcode_injective(a as u64, b as u64);
}

/// Among the first `m + 1` numbered passcodes, one has a key outside a set
/// of `m` keys.
proof fn lemma_free_counter(keys: Set<u128>, m: nat)
    requires
        keys.finite(),
        keys.len() == m,
        m <= u64::MAX,
    ensures
        exists|j: int| 0 <= j <= m && !keys.contains(#[trigger] counter_key(j)),
{
    if forall|j: int| 0 <= j <= m ==> keys.contains(#[trigger] counter_key(j)) {
        let r = set_int_range(0, (m + 1) as int);
        lemma_int_range(0, (m + 1) as int);
        let f = |j: int| counter_key(j);
        assert(injective_on(f, r)) by {
            assert forall|x: int, y: int| r.contains(x) && r.contains(y) && #[trigger] f(x) == #[trigger] f(y)
                implies x == y by {
                lemma_counter_key_injective(x, y);
            }
        }
        lemma_map_size(r, r.map(f), f);
        assert(r.map(f).subset_of(keys)) by {
            assert forall|k: u128| r.map(f).contains(k) implies keys.contains(k) by {
                let j = choose|j: int| r.contains(j) && f(j) == k;
                assert(keys.contains(counter_key(j)));
            }
        }
        lemma_len_subset(r.map(f), keys);
    }
}

/// A map that holds every address of the network, from `fd00::` +
/// `RESERVED` up, holds at least 2^64 - `RESERVED` of them: only a table
/// that large can leave no address to hand out.
pub proof fn lemma_every_address_held<V>(m: Map<u128, V>)
    requires
        m.dom().finite(),
        forall|low: u64| low >= RESERVED ==> #[trigger] m.contains_key(network_address(low)),
    ensures
        m.dom().len() >= 0x1_0000_0000_0000_0000 - RESERVED,
{
    let r = set_int_range(RESERVED as int, 0x1_0000_0000_0000_0000);
    lemma_int_range(RESERVED as int, 0x1_0000_0000_0000_0000);
    let f = |i: int| network_address(i as u64);
    assert(injective_on(f, r));
    lemma_map_size(r, r.map(f), f);
    assert(r.map(f).subset_of(m.dom())) by {
        assert forall|k: u128| r.map(f).contains(k) implies m.dom().contains(k) by {
            let i = choose|i: int| r.contains(i) && f(i) == k;
            assert(m.contains_key(network_address(i as u64)));
        }
    }
    lemma_len_subset(r.map(f), m.dom());
}

/// An address `fd00::` + `low` with `low` at least `RESERVED` is on the
/// private network and is not the proxy's own.
proof fn lemma_network_address_shape(address: Ipv6Address)
    requires
        exists|low: u64| low >= RESERVED && address.bits == network_address(low),
    ensures
        address.bits != network_address(1),
        first_group(address) == PREFIX,
{
    let low = choose|low: u64| low >= RESERVED && address.bits == network_address(low);
    lemma_client_address_not_reserved(low);
}

/// What filing a fresh address and passcode into a table tells: no
/// standing assignment held the passcode, and it now belongs to the
/// address.
proof fn lemma_filed_fresh<R>(before: Network<R>, after: Network<R>, address: Ipv6Address, p: Seq<u8>, now: u64)
    requires
        before.wf(),
        after.wf(),
        is_passcode_text(p),
        !before.assignments().contains_key(address.bits),
        before.owner(p) is None,
        after.assignments() == before.assignments().insert(
            address.bits,
            AssignmentView { passcode: p, binds: 0, touched: now },
        ),
    ensures
        forall|a: u128| #[trigger] before.assignments().contains_key(a) ==> before.assignments()[a].passcode != p,
        after.owner(p) == Some(address.bits),
{
    assert forall|a: u128| #[trigger] before.assignments().contains_key(a) implies before.assignments()[a].passcode
        != p by {
        if before.assignments()[a].passcode == p {
            before.lemma_owner(p, a);
        }
    }
    after.lemma_owner(p, address.bits);
}

impl<R> Network<R> {
    /// No two standing assignments share a passcode.
    pub proof fn lemma_passcodes_distinct(self, a: u128, b: u128)
        requires
            self.wf(),
            self.assignments().contains_key(a),
            self.assignments().contains_key(b),
            a != b,
        ensures
            self.assignments()[a].passcode != self.assignments()[b].passcode,
    {
        let p = self.assignments()[a].passcode;
        self.lemma_owner(p, a);
        self.lemma_owner(p, b);
    }
}

/// The ports bound on address `a`.
pub open spec fn ports_on<R>(routes: Map<(u128, u16), R>, a: u128) -> Set<u16> {
    Set::new(|p: u16| routes.contains_key((a, p)))
}

impl<R> Network<R> {
    /// Each assignment counts exactly the ports bound on its address.
    pub proof fn lemma_binds_count(self, a: u128)
        requires
            self.wf(),
            self.assignments().contains_key(a),
        ensures
            self.assignments()[a].binds == ports_on(self.routes(), a).len(),
    {
        if self.routes@.contains_key(a) {
            assert(ports_on(self.routes(), a) =~= self.routes@[a]@.dom());
        } else {
            assert(ports_on(self.routes(), a) =~= Set::<u16>::empty());
        }
    }

    /// Expiry never takes an address that has a port bound on it.
    pub proof fn lemma_expire_keeps_bound(self, after: Self, now: u64, k: (u128, u16))
        requires
            self.wf(),
            after.assignments() == self.assignments().filter_keys(
                |a: u128| !is_stale(self.assignments()[a], now),
            ),
            self.routes().contains_key(k),
        ensures
            after.assignments().contains_key(k.0),
            after.assignments()[k.0] == self.assignments()[k.0],
    {
        self.lemma_routes_assigned(k);
    }
}

/// Binding a port and then unbinding it leaves the same ports bound, and
/// the same count of ports on the address, as before.
pub proof fn lemma_bind_then_unbind<R>(
    before: Network<R>,
    bound: Network<R>,
    after: Network<R>,
    key: (u128, u16),
    relay: R,
)
    requires
        before.wf(),
        !before.routes().contains_key(key),
        bound.wf(),
        bound.routes() == before.routes().insert(key, relay),
        bound.assignments()[key.0].binds == before.assignments()[key.0].binds + 1,
        bound.assignments().contains_key(key.0),
        after.routes() == bound.routes().remove(key),
        after.assignments()[key.0].binds == (bound.assignments()[key.0].binds - 1) as nat,
    ensures
        after.routes() == before.routes(),
        after.assignments()[key.0].binds == before.assignments()[key.0].binds,
{
    assert(after.routes() =~= before.routes());
}

/// Where a datagram that a client sent over its bound link goes.
pub enum Outgoing {
    /// To whoever holds `to` on the private network.
    Local { to: RouteKey, data: Vec<u8> },
    /// Out to `peer` on the internet, through the port's translated socket.
    Internet { peer: SocketAddress, data: Vec<u8> },
}

/// Where the frame `raw`, sent by a client over its bound link, goes: a
/// peer on the private network gets it directly, anyone else through the
/// internet. A frame that does not parse ends the link.
pub fn outgoing(raw: &[u8]) -> (r: Result<Outgoing, FrameError>)
    ensures
        match parse_frame(raw@) {
            Err(e) => r == Err::<Outgoing, FrameError>(e),
            Ok((ip, port, data)) => {
                let peer = peer_of(Ipv6Address { bits: ip }, port);
                match peer.ip {
                    IpAddress::V6(v6) if first_group(v6) == PREFIX => r matches Ok(
                        Outgoing::Local { to, data: d },
                    ) && to == (v6, port) && d@ == data,
                    _ => r matches Ok(Outgoing::Internet { peer: p, data: d }) && p == peer && d@
                        == data,
                }
            },
        },
{
    let frame = Frame::decode(raw)?;
    let peer = frame.peer();
    if let IpAddress::V6(v6) = peer.ip {
        if is_network_address(&v6) {
            return Ok(Outgoing::Local { to: (v6, peer.port), data: frame.data });
        }
    }
    Ok(Outgoing::Internet { peer, data: frame.data })
}

} // verus!
