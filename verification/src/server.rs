//! The server's session manager and forwarding plane: the MAC-keyed
//! connection table, the IPv4 lease pool, liveness purging, and
//! Ethernet-aware dispatch of relayed frames.

use vstd::prelude::*;

use vstd::slice::slice_to_vec;
use vstd::string::StringExecFns;

use crate::message::Message;
use crate::message::MessageView;
use crate::net::get_mac_addresses;
use crate::net::spec_frame_dst;
use crate::net::spec_frame_src;
use crate::net::Endpoint;
use crate::net::Ipv4Address;
use crate::net::MacAddress;
use crate::search::find_first;
use crate::search::lemma_find_first;

verus! {

/// Number of addresses the lease pool starts with: every host byte of the
/// overlay's /24 network.
pub const POOL_SIZE: usize = 256;

/// Seconds of silence after which a lease is reclaimed.
pub const CONNECTION_TTL_SECS: u64 = 200;

/// Seconds between two purge sweeps.
pub const PURGE_PERIOD_SECS: u64 = 100;

/// The overlay network address, `10.123.123.0`.
pub open spec fn spec_subnet() -> Ipv4Address {
    Ipv4Address { a: 10, b: 123, c: 123, d: 0 }
}

/// The overlay network address, `10.123.123.0`.
pub fn subnet() -> (r: Ipv4Address)
    ensures
        r == spec_subnet(),
{
    Ipv4Address::new(10, 123, 123, 0)
}

/// The overlay subnet mask, `255.255.255.0`.
pub open spec fn spec_subnet_mask() -> Ipv4Address {
    Ipv4Address { a: 255, b: 255, c: 255, d: 0 }
}

/// The overlay subnet mask, `255.255.255.0`.
pub fn subnet_mask() -> (r: Ipv4Address)
    ensures
        r == spec_subnet_mask(),
{
    Ipv4Address::new(255, 255, 255, 0)
}

/// The reason sent when the lease pool is empty.
pub open spec fn spec_no_ip_reason() -> Seq<char> {
    "No available ip left"@
}

/// One registered peer: its lease, its table key, where to send to it, and
/// when it was last heard from (seconds on the server's clock).
#[derive(Clone, Copy, PartialEq, Eq, Structural, Debug)]
pub struct Connection {
    pub ip: Ipv4Address,
    pub mac_address: MacAddress,
    pub socket_address: Endpoint,
    pub last_seen: u64,
}

/// The server's shared state: the free lease pool and the connection table,
/// keyed by MAC.
pub struct ServerState {
    pub ip_pool: Vec<Ipv4Address>,
    pub connections: Vec<Connection>,
}

/// The mathematical image of [`ServerState`].
pub struct ServerStateView {
    pub ip_pool: Seq<Ipv4Address>,
    pub connections: Seq<Connection>,
}

impl View for ServerState {
    type V = ServerStateView;

    open spec fn view(&self) -> ServerStateView {
        ServerStateView { ip_pool: self.ip_pool@, connections: self.connections@ }
    }
}

/// The leases held by a connection table, in table order.
pub open spec fn conn_ips(conns: Seq<Connection>) -> Seq<Ipv4Address> {
    conns.map_values(|c: Connection| c.ip)
}

/// The MAC keys of a connection table, in table order.
pub open spec fn conn_macs(conns: Seq<Connection>) -> Seq<MacAddress> {
    conns.map_values(|c: Connection| c.mac_address)
}

impl ServerStateView {
    /// The server invariant: every address is accounted for exactly once.
    ///
    /// The pool and the set of leased addresses partition the initial pool:
    /// their sizes sum to [`POOL_SIZE`], no address repeats on either side,
    /// and no address is both free and leased. MAC keys are unique.
    pub open spec fn inv(self) -> bool {
        &&& self.ip_pool.len() + self.connections.len() == POOL_SIZE
        &&& self.ip_pool.no_duplicates()
        &&& conn_ips(self.connections).no_duplicates()
        &&& conn_macs(self.connections).no_duplicates()
        &&& forall|i: int, j: int|
            #![trigger self.ip_pool[i], self.connections[j]]
            0 <= i < self.ip_pool.len() && 0 <= j < self.connections.len() ==> self.ip_pool[i]
                != self.connections[j].ip
    }

    /// Index of the first connection keyed by `mac`, if any.
    pub open spec fn find_mac(self, mac: MacAddress) -> Option<int> {
        find_first(self.connections, mac_pred(mac))
    }

    /// Index of the first connection last seen at `source`, if any.
    pub open spec fn find_endpoint(self, source: Endpoint) -> Option<int> {
        find_first(self.connections, endpoint_pred(source))
    }
}

/// Matches a connection keyed by `mac`.
pub open spec fn mac_pred(mac: MacAddress) -> spec_fn(Connection) -> bool {
    |c: Connection| c.mac_address == mac
}

/// Matches a connection last seen at `source`.
pub open spec fn endpoint_pred(source: Endpoint) -> spec_fn(Connection) -> bool {
    |c: Connection| c.socket_address == source
}

/// Builds the initial lease pool: all 256 addresses of the overlay's /24,
/// host byte ascending. The network and broadcast addresses are not treated
/// specially; this matches the observable protocol behavior.
pub fn generate_ip_pool() -> (pool: Vec<Ipv4Address>)
    ensures
        pool@.len() == POOL_SIZE,
        forall|i: int|
            0 <= i < POOL_SIZE ==> #[trigger] pool@[i] == (Ipv4Address {
                a: 10,
                b: 123,
                c: 123,
                d: i as u8,
            }),
        pool@.no_duplicates(),
{
    let mut pool: Vec<Ipv4Address> = Vec::new();
    let mut i: usize = 0;
    while i < POOL_SIZE
        invariant
            i <= POOL_SIZE,
            pool@.len() == i,
            forall|k: int|
                0 <= k < i ==> #[trigger] pool@[k] == (Ipv4Address {
                    a: 10,
                    b: 123,
                    c: 123,
                    d: k as u8,
                }),
        decreases POOL_SIZE - i,
    {
        pool.push(Ipv4Address::new(10, 123, 123, i as u8));
        i += 1;
    }
    proof {
        assert forall|i: int, j: int|
            0 <= i < pool@.len() && 0 <= j < pool@.len() && i != j implies pool@[i]
            != pool@[j] by {
            assert(pool@[i].d == i as u8);
            assert(pool@[j].d == j as u8);
        }
    }
    pool
}

/// The registration step. A MAC already in the table keeps its lease: only
/// its endpoint and liveness are refreshed. A new MAC draws the pool's last
/// address, or is refused when the pool is empty.
pub open spec fn spec_register(
    s: ServerStateView,
    mac: MacAddress,
    source: Endpoint,
    now: u64,
) -> (ServerStateView, MessageView) {
    match s.find_mac(mac) {
        Some(i) => {
            let c = s.connections[i];
            let c2 = Connection {
                ip: c.ip,
                mac_address: c.mac_address,
                socket_address: source,
                last_seen: now,
            };
            (
                ServerStateView { ip_pool: s.ip_pool, connections: s.connections.update(i, c2) },
                MessageView::RegisterSuccess { ip: c.ip, subnet_mask: spec_subnet_mask() },
            )
        },
        None => {
            if s.ip_pool.len() > 0 {
                let ip = s.ip_pool.last();
                let c = Connection {
                    ip,
                    mac_address: mac,
                    socket_address: source,
                    last_seen: now,
                };
                (
                    ServerStateView {
                        ip_pool: s.ip_pool.drop_last(),
                        connections: s.connections.push(c),
                    },
                    MessageView::RegisterSuccess { ip, subnet_mask: spec_subnet_mask() },
                )
            } else {
                (s, MessageView::RegisterFail { reason: spec_no_ip_reason() })
            }
        },
    }
}

/// Law: every registration step preserves the server invariant.
pub proof fn lemma_register_preserves_inv(
    s: ServerStateView,
    mac: MacAddress,
    source: Endpoint,
    now: u64,
)
    requires
        s.inv(),
    ensures
        spec_register(s, mac, source, now).0.inv(),
{
    lemma_find_first(s.connections, mac_pred(mac));
    let s2 = spec_register(s, mac, source, now).0;
    match s.find_mac(mac) {
        Some(i) => {
            assert(conn_ips(s2.connections) =~= conn_ips(s.connections));
            assert(conn_macs(s2.connections) =~= conn_macs(s.connections));
        },
        None => {
            if s.ip_pool.len() > 0 {
                let ip = s.ip_pool.last();
                assert(conn_ips(s2.connections) =~= conn_ips(s.connections).push(ip));
                assert(conn_macs(s2.connections) =~= conn_macs(s.connections).push(mac));
                assert forall|i: int, j: int|
                    0 <= i < conn_ips(s2.connections).len() && 0 <= j < conn_ips(
                        s2.connections,
                    ).len() && i != j implies conn_ips(s2.connections)[i] != conn_ips(
                    s2.connections,
                )[j] by {
                    assert(ip == s.ip_pool[s.ip_pool.len() - 1]);
                    if i < s.connections.len() && j < s.connections.len() {
                        assert(conn_ips(s.connections)[i] != conn_ips(s.connections)[j]);
                    }
                }
                assert forall|i: int, j: int|
                    0 <= i < conn_macs(s2.connections).len() && 0 <= j < conn_macs(
                        s2.connections,
                    ).len() && i != j implies conn_macs(s2.connections)[i] != conn_macs(
                    s2.connections,
                )[j] by {
                    if i < s.connections.len() && j < s.connections.len() {
                        assert(conn_macs(s.connections)[i] != conn_macs(s.connections)[j]);
                    }
                }
                assert forall|i: int, j: int|
                    #![trigger s2.ip_pool[i], s2.connections[j]]
                    0 <= i < s2.ip_pool.len() && 0 <= j < s2.connections.len() implies s2.ip_pool[i]
                    != s2.connections[j].ip by {
                    assert(s2.ip_pool[i] == s.ip_pool[i]);
                    assert(ip == s.ip_pool[s.ip_pool.len() - 1]);
                    if j < s.connections.len() {
                        assert(s.ip_pool[i] != s.connections[j].ip);
                    }
                }
            }
        },
    }
}

/// The keepalive step: refresh the liveness of the first connection whose
/// endpoint is `source`. The boolean says whether a `Pong` is owed to
/// `source`; pings from unregistered endpoints earn none.
pub open spec fn spec_ping(s: ServerStateView, source: Endpoint, now: u64) -> (
    ServerStateView,
    bool,
) {
    match s.find_endpoint(source) {
        Some(i) => {
            let c = s.connections[i];
            let c2 = Connection {
                ip: c.ip,
                mac_address: c.mac_address,
                socket_address: c.socket_address,
                last_seen: now,
            };
            (
                ServerStateView { ip_pool: s.ip_pool, connections: s.connections.update(i, c2) },
                true,
            )
        },
        None => (s, false),
    }
}

/// Law: every keepalive step preserves the server invariant.
pub proof fn lemma_ping_preserves_inv(s: ServerStateView, source: Endpoint, now: u64)
    requires
        s.inv(),
    ensures
        spec_ping(s, source, now).0.inv(),
{
    lemma_find_first(s.connections, endpoint_pred(source));
    let s2 = spec_ping(s, source, now).0;
    if s.find_endpoint(source) is Some {
        assert(conn_ips(s2.connections) =~= conn_ips(s.connections));
        assert(conn_macs(s2.connections) =~= conn_macs(s.connections));
    }
}

/// Whether a connection survives a purge sweep at `now`: it was heard from
/// less than [`CONNECTION_TTL_SECS`] seconds ago.
pub open spec fn spec_keep(c: Connection, now: u64) -> bool {
    now < c.last_seen + CONNECTION_TTL_SECS
}

/// The connections that survive a purge sweep at `now`, in table order.
pub open spec fn kept_connections(conns: Seq<Connection>, now: u64) -> Seq<Connection>
    decreases conns.len(),
{
    if conns.len() == 0 {
        conns
    } else {
        let rest = kept_connections(conns.drop_last(), now);
        if spec_keep(conns.last(), now) {
            rest.push(conns.last())
        } else {
            rest
        }
    }
}

/// The addresses a purge sweep at `now` returns to the pool, in table order.
pub open spec fn released_ips(conns: Seq<Connection>, now: u64) -> Seq<Ipv4Address>
    decreases conns.len(),
{
    if conns.len() == 0 {
        Seq::empty()
    } else {
        let rest = released_ips(conns.drop_last(), now);
        if spec_keep(conns.last(), now) {
            rest
        } else {
            rest.push(conns.last().ip)
        }
    }
}

/// The purge step: connections silent for [`CONNECTION_TTL_SECS`] seconds or
/// longer leave the table and their addresses return to the pool.
pub open spec fn spec_purge(s: ServerStateView, now: u64) -> ServerStateView {
    ServerStateView {
        ip_pool: s.ip_pool + released_ips(s.connections, now),
        connections: kept_connections(s.connections, now),
    }
}

/// How a purge sweep splits a table: every connection lands either in the
/// kept table or, as its address, in the released list; uniqueness and
/// pool-disjointness carry over.
proof fn lemma_purge_parts(pool: Seq<Ipv4Address>, conns: Seq<Connection>, now: u64)
    requires
        pool.no_duplicates(),
        conn_ips(conns).no_duplicates(),
        conn_macs(conns).no_duplicates(),
        forall|i: int, j: int|
            #![trigger pool[i], conns[j]]
            0 <= i < pool.len() && 0 <= j < conns.len() ==> pool[i] != conns[j].ip,
    ensures
        kept_connections(conns, now).len() + released_ips(conns, now).len() == conns.len(),
        (pool + released_ips(conns, now)).no_duplicates(),
        conn_ips(kept_connections(conns, now)).no_duplicates(),
        conn_macs(kept_connections(conns, now)).no_duplicates(),
        forall|i: int, j: int|
            #![trigger (pool + released_ips(conns, now))[i], kept_connections(conns, now)[j]]
            0 <= i < (pool + released_ips(conns, now)).len() && 0 <= j < kept_connections(
                conns,
                now,
            ).len() ==> (pool + released_ips(conns, now))[i] != kept_connections(conns, now)[j].ip,
        forall|j: int|
            0 <= j < conns.len() && spec_keep(#[trigger] conns[j], now) ==> kept_connections(
                conns,
                now,
            ).contains(conns[j]),
        forall|j: int|
            0 <= j < kept_connections(conns, now).len() ==> conns.contains(
                #[trigger] kept_connections(conns, now)[j],
            ) && spec_keep(kept_connections(conns, now)[j], now),
        forall|k: int|
            0 <= k < released_ips(conns, now).len() ==> exists|j: int|
                0 <= j < conns.len() && !spec_keep(#[trigger] conns[j], now) && #[trigger]
                released_ips(conns, now)[k] == conns[j].ip,
    decreases conns.len(),
{
    if conns.len() == 0 {
        assert(pool + released_ips(conns, now) =~= pool);
    } else {
        let rest = conns.drop_last();
        let c = conns.last();
        assert(conn_ips(rest) =~= conn_ips(conns).drop_last());
        assert(conn_macs(rest) =~= conn_macs(conns).drop_last());
        lemma_purge_parts(pool, rest, now);
        let kept = kept_connections(conns, now);
        let kept_r = kept_connections(rest, now);
        let rel = released_ips(conns, now);
        let rel_r = released_ips(rest, now);
        assert(forall|j: int| 0 <= j < rest.len() ==> #[trigger] rest[j] == conns[j]);
        assert forall|j: int|
            0 <= j < conns.len() && spec_keep(conns[j], now) implies kept.contains(conns[j]) by {
            if j < rest.len() {
                assert(rest[j] == conns[j]);
                assert(kept_connections(rest, now).contains(rest[j]));
                let k = choose|k: int| 0 <= k < kept_r.len() && kept_r[k] == rest[j];
                if spec_keep(c, now) {
                    assert(kept =~= kept_r.push(c));
                }
                assert(kept[k] == conns[j]);
            } else {
                assert(conns[j] == c);
                assert(spec_keep(c, now));
                assert(kept =~= kept_r.push(c));
                assert(kept[kept.len() - 1] == c);
            }
        }
        if spec_keep(c, now) {
            assert(kept =~= kept_r.push(c));
            assert(rel == rel_r);
            assert(conn_ips(kept) =~= conn_ips(kept_r).push(c.ip));
            assert(conn_macs(kept) =~= conn_macs(kept_r).push(c.mac_address));
            assert forall|i: int, j: int|
                0 <= i < conn_ips(kept).len() && 0 <= j < conn_ips(kept).len() && i
                    != j implies conn_ips(kept)[i] != conn_ips(kept)[j] by {
                lemma_kept_ip_distinct_step(conns, now, i, j);
            }
            assert forall|i: int, j: int|
                0 <= i < conn_macs(kept).len() && 0 <= j < conn_macs(kept).len() && i
                    != j implies conn_macs(kept)[i] != conn_macs(kept)[j] by {
                lemma_kept_mac_distinct_step(conns, now, i, j);
            }
            assert forall|i: int, j: int|
                0 <= i < (pool + rel).len() && 0 <= j < kept.len() implies (pool + rel)[i]
                != kept[j].ip by {
                if j < kept_r.len() {
                    assert((pool + rel_r)[i] != kept_r[j].ip);
                } else {
                    assert(kept[j] == c);
                    if i < pool.len() {
                        assert(pool[i] != c.ip);
                    } else {
                        let k = i - pool.len();
                        assert(rel[k] == (pool + rel)[i]);
                        let jj = choose|jj: int|
                            0 <= jj < rest.len() && !spec_keep(rest[jj], now) && rel_r[k]
                                == rest[jj].ip;
                        assert(conn_ips(conns)[jj] == rest[jj].ip);
                        assert(conn_ips(conns)[conns.len() - 1] == c.ip);
                    }
                }
            }
        } else {
            assert(kept == kept_r);
            assert(rel =~= rel_r.push(c.ip));
            assert((pool + rel) =~= (pool + rel_r).push(c.ip));
            assert forall|i: int, j: int|
                0 <= i < (pool + rel).len() && 0 <= j < (pool + rel).len() && i != j implies (pool
                + rel)[i] != (pool + rel)[j] by {
                lemma_released_distinct_step(pool, conns, now, i, j);
            }
            assert forall|i: int, j: int|
                0 <= i < (pool + rel).len() && 0 <= j < kept.len() implies (pool + rel)[i]
                != kept[j].ip by {
                if i < (pool + rel_r).len() {
                    assert((pool + rel_r)[i] != kept_r[j].ip);
                } else {
                    assert((pool + rel)[i] == c.ip);
                    let jj = choose|jj: int| 0 <= jj < rest.len() && rest[jj] == kept_r[j];
                    assert(conn_ips(conns)[jj] == rest[jj].ip);
                    assert(conn_ips(conns)[conns.len() - 1] == c.ip);
                }
            }
        }
    }
}

/// Step case of lease uniqueness for the kept table.
proof fn lemma_kept_ip_distinct_step(conns: Seq<Connection>, now: u64, i: int, j: int)
    requires
        conns.len() > 0,
        spec_keep(conns.last(), now),
        conn_ips(conns).no_duplicates(),
        conn_ips(kept_connections(conns.drop_last(), now)).no_duplicates(),
        forall|k: int|
            0 <= k < kept_connections(conns.drop_last(), now).len() ==> conns.drop_last().contains(
                #[trigger] kept_connections(conns.drop_last(), now)[k],
            ),
        0 <= i < conn_ips(kept_connections(conns, now)).len(),
        0 <= j < conn_ips(kept_connections(conns, now)).len(),
        i != j,
    ensures
        conn_ips(kept_connections(conns, now))[i] != conn_ips(kept_connections(conns, now))[j],
{
    let rest = conns.drop_last();
    let c = conns.last();
    let kept = kept_connections(conns, now);
    let kept_r = kept_connections(rest, now);
    assert(kept =~= kept_r.push(c));
    if i < kept_r.len() && j < kept_r.len() {
        assert(conn_ips(kept_r)[i] != conn_ips(kept_r)[j]);
    } else {
        let a = if i < kept_r.len() {
            i
        } else {
            j
        };
        assert(kept[a] == kept_r[a]);
        let k = choose|k: int| 0 <= k < rest.len() && rest[k] == kept_r[a];
        assert(conn_ips(conns)[k] == rest[k].ip);
        assert(conn_ips(conns)[conns.len() - 1] == c.ip);
    }
}

/// Step case of MAC uniqueness for the kept table.
proof fn lemma_kept_mac_distinct_step(conns: Seq<Connection>, now: u64, i: int, j: int)
    requires
        conns.len() > 0,
        spec_keep(conns.last(), now),
        conn_macs(conns).no_duplicates(),
        conn_macs(kept_connections(conns.drop_last(), now)).no_duplicates(),
        forall|k: int|
            0 <= k < kept_connections(conns.drop_last(), now).len() ==> conns.drop_last().contains(
                #[trigger] kept_connections(conns.drop_last(), now)[k],
            ),
        0 <= i < conn_macs(kept_connections(conns, now)).len(),
        0 <= j < conn_macs(kept_connections(conns, now)).len(),
        i != j,
    ensures
        conn_macs(kept_connections(conns, now))[i] != conn_macs(kept_connections(conns, now))[j],
{
    let rest = conns.drop_last();
    let c = conns.last();
    let kept = kept_connections(conns, now);
    let kept_r = kept_connections(rest, now);
    assert(kept =~= kept_r.push(c));
    if i < kept_r.len() && j < kept_r.len() {
        assert(conn_macs(kept_r)[i] != conn_macs(kept_r)[j]);
    } else {
        let a = if i < kept_r.len() {
            i
        } else {
            j
        };
        assert(kept[a] == kept_r[a]);
        let k = choose|k: int| 0 <= k < rest.len() && rest[k] == kept_r[a];
        assert(conn_macs(conns)[k] == rest[k].mac_address);
        assert(conn_macs(conns)[conns.len() - 1] == c.mac_address);
    }
}

/// Step case of pool uniqueness when one more address is released.
proof fn lemma_released_distinct_step(
    pool: Seq<Ipv4Address>,
    conns: Seq<Connection>,
    now: u64,
    i: int,
    j: int,
)
    requires
        conns.len() > 0,
        !spec_keep(conns.last(), now),
        conn_ips(conns).no_duplicates(),
        (pool + released_ips(conns.drop_last(), now)).no_duplicates(),
        forall|ii: int, jj: int|
            #![trigger pool[ii], conns[jj]]
            0 <= ii < pool.len() && 0 <= jj < conns.len() ==> pool[ii] != conns[jj].ip,
        forall|k: int|
            0 <= k < released_ips(conns.drop_last(), now).len() ==> exists|jj: int|
                0 <= jj < conns.drop_last().len() && !spec_keep(
                    #[trigger] conns.drop_last()[jj],
                    now,
                ) && #[trigger] released_ips(conns.drop_last(), now)[k] == conns.drop_last()[jj].ip,
        0 <= i < (pool + released_ips(conns, now)).len(),
        0 <= j < (pool + released_ips(conns, now)).len(),
        i != j,
    ensures
        (pool + released_ips(conns, now))[i] != (pool + released_ips(conns, now))[j],
{
    let rest = conns.drop_last();
    let c = conns.last();
    let rel = released_ips(conns, now);
    let rel_r = released_ips(rest, now);
    assert((pool + rel) =~= (pool + rel_r).push(c.ip));
    if i < (pool + rel_r).len() && j < (pool + rel_r).len() {
        assert((pool + rel_r)[i] != (pool + rel_r)[j]);
    } else {
        let a = if i < (pool + rel_r).len() {
            i
        } else {
            j
        };
        assert((pool + rel)[a] == (pool + rel_r)[a]);
        if a < pool.len() {
            assert(pool[a] != conns[conns.len() - 1].ip);
        } else {
            let k = a - pool.len();
            let jj = choose|jj: int|
                0 <= jj < rest.len() && !spec_keep(rest[jj], now) && rel_r[k] == rest[jj].ip;
            assert(conn_ips(conns)[jj] == rest[jj].ip);
            assert(conn_ips(conns)[conns.len() - 1] == c.ip);
        }
    }
}

/// Endpoints owed a copy of a multicast frame whose source is `src`: every
/// connection not keyed by `src`, in table order (split horizon).
pub open spec fn spec_fanout(conns: Seq<Connection>, src: MacAddress) -> Seq<Endpoint>
    decreases conns.len(),
{
    if conns.len() == 0 {
        Seq::empty()
    } else {
        let rest = spec_fanout(conns.drop_last(), src);
        if conns.last().mac_address != src {
            rest.push(conns.last().socket_address)
        } else {
            rest
        }
    }
}

/// The forwarding decision for one relayed frame: no endpoint for a frame
/// without a complete Ethernet header; split-horizon fan-out for a multicast
/// destination; the owner of the destination MAC, if registered, otherwise
/// no endpoint.
pub open spec fn spec_forward(s: ServerStateView, frame: Seq<u8>) -> Seq<Endpoint> {
    if frame.len() < 12 {
        Seq::empty()
    } else {
        let dst = spec_frame_dst(frame);
        let src = spec_frame_src(frame);
        if dst.spec_is_multicast() {
            spec_fanout(s.connections, src)
        } else {
            match s.find_mac(dst) {
                Some(i) => seq![s.connections[i].socket_address],
                None => Seq::empty(),
            }
        }
    }
}

/// Every fan-out target is some connection whose MAC differs from the
/// frame's source.
proof fn lemma_fanout_member(conns: Seq<Connection>, src: MacAddress, k: int)
    requires
        0 <= k < spec_fanout(conns, src).len(),
    ensures
        exists|j: int|
            0 <= j < conns.len() && #[trigger] conns[j].socket_address == spec_fanout(conns, src)[k]
                && conns[j].mac_address != src,
    decreases conns.len(),
{
    let rest = conns.drop_last();
    if k < spec_fanout(rest, src).len() {
        lemma_fanout_member(rest, src, k);
        let j = choose|j: int|
            0 <= j < rest.len() && #[trigger] rest[j].socket_address == spec_fanout(rest, src)[k]
                && rest[j].mac_address != src;
        assert(conns[j].socket_address == spec_fanout(conns, src)[k] && conns[j].mac_address
            != src);
    } else {
        assert(conns[conns.len() - 1].socket_address == spec_fanout(conns, src)[k] && conns[conns.len()
            - 1].mac_address != src);
    }
}

/// Law: split horizon and destination matching. Every endpoint the forwarder
/// picks belongs to a registered connection, and that connection either owns
/// the frame's unicast destination, or — for a multicast destination — is
/// not the frame's own source.
pub proof fn lemma_forward_split_horizon(s: ServerStateView, frame: Seq<u8>, k: int)
    requires
        0 <= k < spec_forward(s, frame).len(),
    ensures
        frame.len() >= 12,
        exists|j: int|
            0 <= j < s.connections.len() && #[trigger] s.connections[j].socket_address
                == spec_forward(s, frame)[k] && (if spec_frame_dst(frame).spec_is_multicast() {
                s.connections[j].mac_address != spec_frame_src(frame)
            } else {
                s.connections[j].mac_address == spec_frame_dst(frame)
            }),
{
    let dst = spec_frame_dst(frame);
    let src = spec_frame_src(frame);
    if dst.spec_is_multicast() {
        lemma_fanout_member(s.connections, src, k);
    } else {
        lemma_find_first(s.connections, mac_pred(dst));
        let i = s.find_mac(dst).unwrap();
        assert(s.connections[i].socket_address == spec_forward(s, frame)[k] && s.connections[i].mac_address
            == dst);
    }
}

/// Law: every purge step preserves the server invariant.
pub proof fn lemma_purge_preserves_inv(s: ServerStateView, now: u64)
    requires
        s.inv(),
    ensures
        spec_purge(s, now).inv(),
{
    lemma_purge_parts(s.ip_pool, s.connections, now);
}

/// The views of a batch of outgoing datagrams.
pub open spec fn datagram_views(out: Seq<(Endpoint, Message)>) -> Seq<(Endpoint, MessageView)> {
    out.map_values(|d: (Endpoint, Message)| (d.0, d.1@))
}

/// One `Data` datagram carrying `frame` for each target, in target order.
pub open spec fn data_datagrams(targets: Seq<Endpoint>, frame: Seq<u8>) -> Seq<
    (Endpoint, MessageView),
> {
    targets.map_values(|e: Endpoint| (e, MessageView::Data { ethernet_frame: frame }))
}

/// The server's dispatch for one received datagram: how the state steps and
/// which datagrams go out in reply. `Register` always earns a reply to its
/// sender; `Data` fans out unchanged to the forwarder's targets; `Ping`
/// earns `Pong` exactly when the sender is registered; everything else is
/// ignored.
pub open spec fn spec_handle(
    s: ServerStateView,
    m: MessageView,
    source: Endpoint,
    now: u64,
) -> (ServerStateView, Seq<(Endpoint, MessageView)>) {
    match m {
        MessageView::Register { mac_address } => {
            let r = spec_register(s, mac_address, source, now);
            (r.0, seq![(source, r.1)])
        },
        MessageView::Data { ethernet_frame } => (
            s,
            data_datagrams(spec_forward(s, ethernet_frame), ethernet_frame),
        ),
        MessageView::Ping => {
            let r = spec_ping(s, source, now);
            (r.0, if r.1 {
                seq![(source, MessageView::Pong)]
            } else {
                Seq::empty()
            })
        },
        _ => (s, Seq::empty()),
    }
}

/// Law: lease conservation. In every state the invariant admits, the free
/// pool and the set of distinct leased addresses together account for the
/// initial pool exactly.
pub proof fn lemma_lease_conservation(s: ServerStateView)
    requires
        s.inv(),
    ensures
        s.ip_pool.len() + conn_ips(s.connections).to_set().len() == POOL_SIZE,
{
    conn_ips(s.connections).unique_seq_to_set();
}

/// Law: no two connections share a leased address or a MAC key.
pub proof fn lemma_no_shared_lease(s: ServerStateView, i: int, j: int)
    requires
        s.inv(),
        0 <= i < s.connections.len(),
        0 <= j < s.connections.len(),
        i != j,
    ensures
        s.connections[i].ip != s.connections[j].ip,
        s.connections[i].mac_address != s.connections[j].mac_address,
{
    assert(conn_ips(s.connections)[i] == s.connections[i].ip);
    assert(conn_ips(s.connections)[j] == s.connections[j].ip);
    assert(conn_macs(s.connections)[i] == s.connections[i].mac_address);
    assert(conn_macs(s.connections)[j] == s.connections[j].mac_address);
}

/// Law: the lease is sticky. When a registration succeeds, registering the
/// same MAC again — from any endpoint, at any later time — succeeds with
/// the identical address and leaves the pool untouched.
pub proof fn lemma_sticky_lease(
    s: ServerStateView,
    mac: MacAddress,
    a1: Endpoint,
    a2: Endpoint,
    t1: u64,
    t2: u64,
)
    requires
        s.inv(),
    ensures
        ({
            let r1 = spec_register(s, mac, a1, t1);
            let r2 = spec_register(r1.0, mac, a2, t2);
            r1.1 matches MessageView::RegisterSuccess { ip: ip1, .. } ==> {
                &&& r2.1 matches MessageView::RegisterSuccess { ip: ip2, .. } && ip2 == ip1
                &&& r2.0.ip_pool == r1.0.ip_pool
            }
        }),
{
    lemma_find_first(s.connections, mac_pred(mac));
    let r1 = spec_register(s, mac, a1, t1);
    let conns1 = r1.0.connections;
    lemma_find_first(conns1, mac_pred(mac));
    match s.find_mac(mac) {
        Some(i) => {
            assert(conns1[i].mac_address == mac);
            match find_first(conns1, mac_pred(mac)) {
                Some(k) => {
                    if k < i {
                        assert(conns1[k] == s.connections[k]);
                    }
                    assert(k == i);
                },
                None => {
                    assert(false);
                },
            }
        },
        None => {
            if s.ip_pool.len() > 0 {
                let last = conns1.len() - 1;
                assert(conns1[last].mac_address == mac);
                match find_first(conns1, mac_pred(mac)) {
                    Some(k) => {
                        if k < last {
                            assert(conns1[k] == s.connections[k]);
                        }
                        assert(k == last);
                    },
                    None => {
                        assert(false);
                    },
                }
            }
        },
    }
}

/// Law: a fresh ping shields its connection from a purge that runs less than
/// the lease TTL later: the refreshed connection is still in the table.
pub proof fn lemma_ping_shields_from_purge(
    s: ServerStateView,
    source: Endpoint,
    t_ping: u64,
    t_purge: u64,
)
    requires
        s.inv(),
        s.find_endpoint(source) is Some,
        t_purge < t_ping + CONNECTION_TTL_SECS,
    ensures
        ({
            let s1 = spec_ping(s, source, t_ping).0;
            let i = s.find_endpoint(source).unwrap();
            spec_purge(s1, t_purge).connections.contains(s1.connections[i])
        }),
{
    lemma_find_first(s.connections, endpoint_pred(source));
    lemma_ping_preserves_inv(s, source, t_ping);
    let s1 = spec_ping(s, source, t_ping).0;
    let i = s.find_endpoint(source).unwrap();
    lemma_purge_parts(s1.ip_pool, s1.connections, t_purge);
    assert(s1.connections[i].last_seen == t_ping);
    assert(spec_keep(s1.connections[i], t_purge));
}

/// Law: pool exhaustion. A register from an unknown MAC against an empty
/// pool changes nothing and is refused with the documented reason.
pub proof fn lemma_pool_exhaustion(s: ServerStateView, mac: MacAddress, source: Endpoint, now: u64)
    requires
        s.ip_pool.len() == 0,
        s.find_mac(mac) is None,
    ensures
        spec_register(s, mac, source, now).0 == s,
        spec_register(s, mac, source, now).1 == (MessageView::RegisterFail {
            reason: spec_no_ip_reason(),
        }),
{
}

impl ServerState {
    /// Sticky-lease path of registration: when `mac_address` is already in
    /// the table, refresh that connection's endpoint and liveness and
    /// re-issue the address it already holds. Reports `None` for an unknown
    /// MAC and leaves the state unchanged.
    pub fn reassign_ip(
        &mut self,
        mac_address: MacAddress,
        source_address: Endpoint,
        now: u64,
    ) -> (reply: Option<Message>)
        ensures
            match old(self)@.find_mac(mac_address) {
                Some(i) => {
                    &&& reply matches Some(m) && m@ == spec_register(
                        old(self)@,
                        mac_address,
                        source_address,
                        now,
                    ).1
                    &&& final(self)@ == spec_register(
                        old(self)@,
                        mac_address,
                        source_address,
                        now,
                    ).0
                },
                None => reply is None && final(self)@ == old(self)@,
            },
    {
        let n = self.connections.len();
        let mut i: usize = 0;
        while i < n
            invariant
                i <= n,
                n == self.connections@.len(),
                self.ip_pool@ == old(self).ip_pool@,
                self.connections@ == old(self).connections@,
                forall|j: int|
                    0 <= j < i ==> #[trigger] self.connections@[j].mac_address != mac_address,
            decreases n - i,
        {
            if self.connections[i].mac_address == mac_address {
                let ip = self.connections[i].ip;
                self.connections[i].socket_address = source_address;
                self.connections[i].last_seen = now;
                proof {
                    lemma_find_first(old(self).connections@, mac_pred(mac_address));
                    assert(old(self)@.find_mac(mac_address) == Some(i as int));
                    let c = old(self).connections@[i as int];
                    let c2 = Connection {
                        ip: c.ip,
                        mac_address: c.mac_address,
                        socket_address: source_address,
                        last_seen: now,
                    };
                    assert(self.connections@ =~= old(self).connections@.update(i as int, c2));
                }
                return Some(
                    Message::RegisterSuccess { ip, subnet_mask: subnet_mask() },
                );
            }
            i += 1;
        }
        proof {
            lemma_find_first(self.connections@, mac_pred(mac_address));
        }
        None
    }

    /// The full registration step: sticky lease for a known MAC, otherwise a
    /// draw from the pool, otherwise a refusal naming the documented reason.
    pub fn register(
        &mut self,
        mac_address: MacAddress,
        source_address: Endpoint,
        now: u64,
    ) -> (reply: Message)
        ensures
            final(self)@ == spec_register(old(self)@, mac_address, source_address, now).0,
            reply@ == spec_register(old(self)@, mac_address, source_address, now).1,
            old(self)@.inv() ==> final(self)@.inv(),
    {
        proof {
            if old(self)@.inv() {
                lemma_register_preserves_inv(old(self)@, mac_address, source_address, now);
            }
        }
        if let Some(reply) = self.reassign_ip(mac_address, source_address, now) {
            return reply;
        }
        match self.ip_pool.pop() {
            Some(ip) => {
                self.connections.push(
                    Connection {
                        ip,
                        mac_address,
                        socket_address: source_address,
                        last_seen: now,
                    },
                );
                Message::RegisterSuccess { ip, subnet_mask: subnet_mask() }
            },
            None => Message::RegisterFail {
                reason: String::from_str("No available ip left"),
            },
        }
    }

    /// Keepalive handling: refresh the liveness of the first connection last
    /// seen at `source_address`. Reports whether a `Pong` is owed back to
    /// that endpoint; pings from unregistered endpoints are dropped silently.
    pub fn on_ping(&mut self, source_address: Endpoint, now: u64) -> (pong: bool)
        ensures
            final(self)@ == spec_ping(old(self)@, source_address, now).0,
            pong == spec_ping(old(self)@, source_address, now).1,
            old(self)@.inv() ==> final(self)@.inv(),
    {
        proof {
            if old(self)@.inv() {
                lemma_ping_preserves_inv(old(self)@, source_address, now);
            }
        }
        let n = self.connections.len();
        let mut i: usize = 0;
        while i < n
            invariant
                i <= n,
                n == self.connections@.len(),
                self.ip_pool@ == old(self).ip_pool@,
                self.connections@ == old(self).connections@,
                forall|j: int|
                    0 <= j < i ==> #[trigger] self.connections@[j].socket_address
                        != source_address,
            decreases n - i,
        {
            if self.connections[i].socket_address == source_address {
                self.connections[i].last_seen = now;
                proof {
                    lemma_find_first(old(self).connections@, endpoint_pred(source_address));
                    assert(old(self)@.find_endpoint(source_address) == Some(i as int));
                    let c = old(self).connections@[i as int];
                    let c2 = Connection {
                        ip: c.ip,
                        mac_address: c.mac_address,
                        socket_address: c.socket_address,
                        last_seen: now,
                    };
                    assert(self.connections@ =~= old(self).connections@.update(i as int, c2));
                    if old(self)@.inv() {
                        lemma_ping_preserves_inv(old(self)@, source_address, now);
                    }
                }
                return true;
            }
            i += 1;
        }
        proof {
            lemma_find_first(self.connections@, endpoint_pred(source_address));
        }
        false
    }

    /// The purge sweep: drops every connection silent for
    /// [`CONNECTION_TTL_SECS`] seconds or longer and returns its address to
    /// the pool. Timestamps never run ahead of `now`.
    pub fn purge_timedout_connections(&mut self, now: u64)
        requires
            forall|j: int|
                0 <= j < old(self)@.connections.len() ==> #[trigger] old(
                    self,
                )@.connections[j].last_seen <= now,
        ensures
            final(self)@ == spec_purge(old(self)@, now),
            old(self)@.inv() ==> final(self)@.inv(),
    {
        proof {
            if old(self)@.inv() {
                lemma_purge_preserves_inv(old(self)@, now);
            }
        }
        let n = self.connections.len();
        let mut kept: Vec<Connection> = Vec::new();
        let mut i: usize = 0;
        while i < n
            invariant
                i <= n,
                n == self.connections@.len(),
                self.connections@ == old(self).connections@,
                forall|j: int|
                    0 <= j < n ==> #[trigger] self.connections@[j].last_seen <= now,
                kept@ == kept_connections(self.connections@.subrange(0, i as int), now),
                self.ip_pool@ == old(self).ip_pool@ + released_ips(
                    self.connections@.subrange(0, i as int),
                    now,
                ),
            decreases n - i,
        {
            let c = self.connections[i];
            proof {
                assert(self.connections@.subrange(0, i + 1).drop_last() =~= self.connections@
                    .subrange(0, i as int));
                assert(self.connections@.subrange(0, i + 1).last() == self.connections@[i as int]);
            }
            if now - c.last_seen < CONNECTION_TTL_SECS {
                kept.push(c);
            } else {
                self.ip_pool.push(c.ip);
            }
            i += 1;
        }
        proof {
            assert(self.connections@.subrange(0, n as int) =~= self.connections@);
        }
        self.connections = kept;
    }

    /// The forwarding plane's decision for one relayed frame: the endpoints
    /// that must receive it, in table order. The frame itself travels
    /// unchanged; the caller sends one copy per returned endpoint.
    pub fn forward_data(&self, ethernet_frame: &[u8]) -> (targets: Vec<Endpoint>)
        ensures
            targets@ == spec_forward(self@, ethernet_frame@),
    {
        match get_mac_addresses(ethernet_frame) {
            Ok((source_mac_address, destination_mac_address)) => {
                if destination_mac_address.is_multicast() {
                    let n = self.connections.len();
                    let mut targets: Vec<Endpoint> = Vec::new();
                    let mut i: usize = 0;
                    while i < n
                        invariant
                            i <= n,
                            n == self.connections@.len(),
                            source_mac_address == spec_frame_src(ethernet_frame@),
                            targets@ == spec_fanout(
                                self.connections@.subrange(0, i as int),
                                source_mac_address,
                            ),
                        decreases n - i,
                    {
                        proof {
                            assert(self.connections@.subrange(0, i + 1).drop_last()
                                =~= self.connections@.subrange(0, i as int));
                            assert(self.connections@.subrange(0, i + 1).last()
                                == self.connections@[i as int]);
                        }
                        let c = self.connections[i];
                        if c.mac_address != source_mac_address {
                            targets.push(c.socket_address);
                        }
                        i += 1;
                    }
                    proof {
                        assert(self.connections@.subrange(0, n as int) =~= self.connections@);
                    }
                    targets
                } else {
                    let n = self.connections.len();
                    let mut i: usize = 0;
                    while i < n
                        invariant
                            i <= n,
                            n == self.connections@.len(),
                            ethernet_frame@.len() >= 12,
                            destination_mac_address == spec_frame_dst(ethernet_frame@),
                            !destination_mac_address.spec_is_multicast(),
                            forall|j: int|
                                0 <= j < i ==> #[trigger] self.connections@[j].mac_address
                                    != destination_mac_address,
                        decreases n - i,
                    {
                        if self.connections[i].mac_address == destination_mac_address {
                            let mut targets: Vec<Endpoint> = Vec::new();
                            targets.push(self.connections[i].socket_address);
                            proof {
                                lemma_find_first(
                                    self.connections@,
                                    mac_pred(destination_mac_address),
                                );
                                assert(self@.find_mac(destination_mac_address) == Some(i as int));
                                assert(targets@ =~= spec_forward(self@, ethernet_frame@));
                            }
                            return targets;
                        }
                        i += 1;
                    }
                    proof {
                        lemma_find_first(self.connections@, mac_pred(destination_mac_address));
                    }
                    Vec::new()
                }
            },
            Err(_) => Vec::new(),
        }
    }

    /// Dispatch for one received datagram, already decoded: steps the state
    /// and returns the datagrams to send, each as an endpoint and a message.
    /// Unexpected variants are ignored; the server never fails on
    /// peer-induced input.
    pub fn handle_message(&mut self, message: Message, source_address: Endpoint, now: u64) -> (out:
        Vec<(Endpoint, Message)>)
        ensures
            final(self)@ == spec_handle(old(self)@, message@, source_address, now).0,
            datagram_views(out@) == spec_handle(old(self)@, message@, source_address, now).1,
            old(self)@.inv() ==> final(self)@.inv(),
    {
        match message {
            Message::Register { mac_address } => {
                let reply = self.register(mac_address, source_address, now);
                let mut out: Vec<(Endpoint, Message)> = Vec::new();
                out.push((source_address, reply));
                proof {
                    assert(datagram_views(out@) =~= spec_handle(
                        old(self)@,
                        message@,
                        source_address,
                        now,
                    ).1);
                }
                out
            },
            Message::Data { ethernet_frame } => {
                let targets = self.forward_data(ethernet_frame.as_slice());
                let mut out: Vec<(Endpoint, Message)> = Vec::new();
                let n = targets.len();
                let mut i: usize = 0;
                while i < n
                    invariant
                        i <= n,
                        n == targets@.len(),
                        self@ == old(self)@,
                        targets@ == spec_forward(old(self)@, ethernet_frame@),
                        datagram_views(out@) =~= data_datagrams(
                            targets@.subrange(0, i as int),
                            ethernet_frame@,
                        ),
                    decreases n - i,
                {
                    let copy = slice_to_vec(ethernet_frame.as_slice());
                    let target = targets[i];
                    let msg = Message::Data { ethernet_frame: copy };
                    proof {
                        assert(msg@ == (MessageView::Data { ethernet_frame: ethernet_frame@ }));
                        assert(target == targets@[i as int]);
                    }
                    let ghost prev = out@;
                    proof {
                        assert(datagram_views(prev).len() == prev.len());
                        assert(data_datagrams(
                            targets@.subrange(0, i as int),
                            ethernet_frame@,
                        ).len() == i);
                        assert(prev.len() == i);
                    }
                    out.push((target, msg));
                    proof {
                        assert(out@.len() == i + 1);
                        assert(out@[i as int].0 == target);
                        assert(out@[i as int].1@ == (MessageView::Data {
                            ethernet_frame: ethernet_frame@,
                        }));
                        assert(forall|k: int| 0 <= k < i ==> out@[k] == prev[k]);
                        assert forall|k: int| 0 <= k < i + 1 implies datagram_views(out@)[k]
                            == data_datagrams(targets@.subrange(0, i + 1), ethernet_frame@)[k] by {
                            if k < i {
                                assert(datagram_views(prev)[k] == data_datagrams(
                                    targets@.subrange(0, i as int),
                                    ethernet_frame@,
                                )[k]);
                            }
                        }
                        assert(datagram_views(out@) =~= data_datagrams(
                            targets@.subrange(0, i + 1),
                            ethernet_frame@,
                        ));
                    }
                    i += 1;
                }
                proof {
                    assert(targets@.subrange(0, n as int) =~= targets@);
                    assert(datagram_views(out@) =~= spec_handle(
                        old(self)@,
                        message@,
                        source_address,
                        now,
                    ).1);
                }
                out
            },
            Message::Ping => {
                let pong = self.on_ping(source_address, now);
                let mut out: Vec<(Endpoint, Message)> = Vec::new();
                if pong {
                    out.push((source_address, Message::Pong));
                }
                proof {
                    assert(datagram_views(out@) =~= spec_handle(
                        old(self)@,
                        message@,
                        source_address,
                        now,
                    ).1);
                }
                out
            },
            _ => {
                let out: Vec<(Endpoint, Message)> = Vec::new();
                proof {
                    assert(datagram_views(out@) =~= spec_handle(
                        old(self)@,
                        message@,
                        source_address,
                        now,
                    ).1);
                }
                out
            },
        }
    }

    /// A fresh server: a full pool, an empty table.
    pub fn new() -> (s: ServerState)
        ensures
            s@.inv(),
            s@.connections.len() == 0,
            s@.ip_pool.len() == POOL_SIZE,
            forall|i: int|
                0 <= i < POOL_SIZE ==> #[trigger] s@.ip_pool[i] == (Ipv4Address {
                    a: 10,
                    b: 123,
                    c: 123,
                    d: i as u8,
                }),
    {
        ServerState { ip_pool: generate_ip_pool(), connections: Vec::new() }
    }
}

} // verus!
