//! Consistent-hash ring for cluster node discovery.
//!
//! Keys and virtual nodes are placed on a ring of 64-bit positions by FNV-1a.
//! A key belongs to the first virtual node at or after its position, wrapping
//! around at the end.

use crate::collections::StrMap;
use crate::text::{
    chars_of, contains_str, debug_quote, decimal, find_last, last_index_of, lemma_decimal_reads_back,
    lemma_last_index_of, parse_below, parse_u16, push_decimal, quoted, string_of, strs,
};
use vstd::prelude::*;
use vstd::utf8::encode_utf8;

verus! {

/// FNV-1a 64-bit offset basis.
pub const FNV_OFFSET_BASIS: u64 = 0xcbf29ce484222325;

/// FNV-1a 64-bit prime.
pub const FNV_PRIME: u64 = 0x100000001b3;

/// One FNV-1a step.
pub open spec fn fnv_step(state: u64, b: u8) -> u64 {
    (state ^ (b as u64)).wrapping_mul(FNV_PRIME)
}

/// FNV-1a over `bytes`, starting from `state`.
pub open spec fn fnv(state: u64, bytes: Seq<u8>) -> u64
    decreases bytes.len(),
{
    if bytes.len() == 0 {
        state
    } else {
        fnv_step(fnv(state, bytes.drop_last()), bytes.last())
    }
}

/// The ring position of a text: FNV-1a over its UTF-8 bytes and a closing
/// `0xff`, which no UTF-8 text contains.
pub open spec fn key_hash(key: Seq<char>) -> u64 {
    fnv(FNV_OFFSET_BASIS, encode_utf8(key).push(0xff))
}

/// The text that places the `i`-th virtual node of `id`.
pub open spec fn vnode_key(id: Seq<char>, i: nat) -> Seq<char> {
    id + ":vnode:"@ + decimal(i)
}

/// Whether `h` is the position of one of the first `n` virtual nodes of `id`.
pub open spec fn is_vnode(id: Seq<char>, n: nat, h: u64) -> bool {
    exists|i: nat| i < n && #[trigger] key_hash(vnode_key(id, i)) == h
}

/// Stable FNV-1a 64-bit hasher for cross-version consistent routing.
pub struct FnvHasher {
    state: u64,
}

impl FnvHasher {
    /// The running value.
    pub closed spec fn value(&self) -> u64 {
        self.state
    }

    /// A fresh hasher.
    pub fn new() -> (h: Self)
        ensures
            h.value() == FNV_OFFSET_BASIS,
    {
        FnvHasher { state: FNV_OFFSET_BASIS }
    }

    /// The hash of what was written.
    pub fn finish(&self) -> (h: u64)
        ensures
            h == self.value(),
    {
        self.state
    }

    /// Feeds `bytes`.
    pub fn write(&mut self, bytes: &[u8])
        ensures
            final(self).value() == fnv(old(self).value(), bytes@),
    {
        let mut i: usize = 0;
        while i < bytes.len()
            invariant
                i <= bytes@.len(),
                self.state == fnv(old(self).state, bytes@.take(i as int)),
            decreases bytes@.len() - i,
        {
            assert(bytes@.take(i as int + 1).drop_last() == bytes@.take(i as int));
            self.state = self.state ^ (bytes[i] as u64);
            self.state = self.state.wrapping_mul(FNV_PRIME);
            i += 1;
        }
        assert(bytes@.take(bytes@.len() as int) == bytes@);
    }
}

/// The ring position of `key`.
pub fn hash_key(key: &str) -> (h: u64)
    ensures
        h == key_hash(key@),
{
    let mut hasher = FnvHasher::new();
    hasher.write(key.as_bytes());
    let terminator: [u8; 1] = [0xff];
    hasher.write(&terminator);
    proof {
        let bytes = encode_utf8(key@);
        assert(bytes.push(0xff).drop_last() == bytes);
        assert(terminator@.drop_last() == Seq::<u8>::empty());
        reveal_with_fuel(fnv, 2);
    }
    hasher.finish()
}

/// Physical cluster node.
#[derive(Debug, PartialEq, Eq, Hash)]
pub struct RingNode {
    pub id: String,
    pub host: String,
    pub port: u16,
}

impl Clone for RingNode {
    fn clone(&self) -> (r: Self)
        ensures
            r == *self,
    {
        RingNode { id: self.id.clone(), host: self.host.clone(), port: self.port }
    }
}

/// What [`parse_host_port`] accepts: everything up to the last colon, and a
/// port number after it.
pub open spec fn host_port(addr: Seq<char>) -> Option<(Seq<char>, u16)> {
    match last_index_of(addr, ':') {
        Some(i) => match parse_below(addr.skip(i + 1), 65536) {
            Some(port) => Some((addr.take(i), port as u16)),
            None => None,
        },
        None => None,
    }
}

/// Why [`parse_host_port`] refused an address.
pub open spec fn host_port_error(addr: Seq<char>) -> Seq<char> {
    match last_index_of(addr, ':') {
        Some(i) => "invalid port "@ + quoted(addr.skip(i + 1)) + " in address: "@ + quoted(addr),
        None => "missing port in address: "@ + quoted(addr),
    }
}

/// Parses `"host:port"`.
pub fn parse_host_port(addr: &str) -> (r: Result<(String, u16), String>)
    ensures
        match r {
            Ok(hp) => host_port(addr@) == Some((hp.0@, hp.1)),
            Err(e) => host_port(addr@) is None && e@ == host_port_error(addr@),
        },
{
    let v = chars_of(addr);
    match find_last(&v, ':') {
        None => {
            let mut e = "missing port in address: ".to_string();
            let q = debug_quote(addr);
            e.push_str(q.as_str());
            Err(e)
        },
        Some(i) => {
            let end: usize = v.len();
            let host = string_of(&v, 0, i);
            let port_str = string_of(&v, i + 1, end);
            let port_chars = chars_of(port_str.as_str());
            assert(port_chars@ == addr@.skip(i as int + 1));
            assert(host@ == addr@.take(i as int));
            match parse_u16(&port_chars) {
                Some(port) => Ok((host, port)),
                None => {
                    let mut e = "invalid port ".to_string();
                    let q = debug_quote(port_str.as_str());
                    e.push_str(q.as_str());
                    e.push_str(" in address: ");
                    let q2 = debug_quote(addr);
                    e.push_str(q2.as_str());
                    Err(e)
                },
            }
        },
    }
}

impl RingNode {
    /// A node.
    pub fn new(id: &str, host: &str, port: u16) -> (n: Self)
        ensures
            n.id@ == id@,
            n.host@ == host@,
            n.port == port,
    {
        RingNode { id: id.to_string(), host: host.to_string(), port }
    }

    /// Parses `"host:port"` (e.g. `"127.0.0.1:65140"`).
    pub fn try_from_socket_addr(id: &str, addr: &str) -> (r: Result<Self, String>)
        ensures
            match r {
                Ok(n) => n.id@ == id@ && host_port(addr@) == Some((n.host@, n.port)),
                Err(e) => host_port(addr@) is None && e@ == host_port_error(addr@),
            },
    {
        match parse_host_port(addr) {
            Ok((host, port)) => Ok(RingNode { id: id.to_string(), host, port }),
            Err(e) => Err(e),
        }
    }

    /// Parses a well-formed `"host:port"`.
    pub fn from_socket_addr(id: &str, addr: &str) -> (n: Self)
        requires
            host_port(addr@) is Some,
        ensures
            n.id@ == id@,
            host_port(addr@) == Some((n.host@, n.port)),
    {
        match Self::try_from_socket_addr(id, addr) {
            Ok(n) => n,
            Err(_) => RingNode::new(id, addr, 0),
        }
    }

    /// The address as `"host:port"`.
    pub fn socket_addr(&self) -> (s: String)
        ensures
            s@ == self.host@ + ":"@ + decimal(self.port as nat),
    {
        let mut s = self.host.clone();
        s.push_str(":");
        push_decimal(&mut s, self.port as u64);
        s
    }
}

/// The address of a node, read again, gives the host and the port of the node,
/// whatever the host holds.
pub proof fn law_socket_addr_round_trip(host: Seq<char>, port: u16)
    ensures
        host_port(host + ":"@ + decimal(port as nat)) == Some((host, port)),
{
    let digits = decimal(port as nat);
    let addr = host + ":"@ + digits;
    reveal_strlit(":");
    lemma_decimal_reads_back(port as nat);
    let n = host.len() as int;
    assert(addr[n] == ':');
    lemma_last_index_of(addr, ':');
    let i = last_index_of(addr, ':')->0;
    if n < i {
        assert(addr[i] == digits[i - n - 1]);
    }
    assert(addr.skip(n + 1) =~= digits);
    assert(addr.take(n) =~= host);
}

/// Points in strictly ascending order of position.
pub open spec fn ascending(points: Seq<(u64, String)>) -> bool {
    forall|i: int, j: int| 0 <= i < j < points.len() ==> (#[trigger] points[i]).0 < (
    #[trigger] points[j]).0
}

/// The positions of the points.
pub open spec fn positions(points: Seq<(u64, String)>) -> Seq<u64> {
    Seq::new(points.len(), |i: int| points[i].0)
}

/// The node ids of the points.
pub open spec fn ids(points: Seq<(u64, String)>) -> Seq<Seq<char>> {
    Seq::new(points.len(), |i: int| points[i].1@)
}

/// Which id holds each occupied position.
pub open spec fn occupied(points: Seq<(u64, String)>) -> Map<u64, Seq<char>> {
    Map::new(
        |h: u64| positions(points).contains(h),
        |h: u64| points[positions(points).index_of(h)].1@,
    )
}

/// The positions after `id` took its `n` virtual nodes, also from others.
pub open spec fn with_vnodes(m: Map<u64, Seq<char>>, id: Seq<char>, n: nat) -> Map<
    u64,
    Seq<char>,
> {
    Map::new(
        |h: u64| m.contains_key(h) || is_vnode(id, n, h),
        |h: u64|
            if is_vnode(id, n, h) {
                id
            } else {
                m[h]
            },
    )
}

/// The positions after the `n` virtual nodes of `id` were cleared, whoever
/// held them.
pub open spec fn without_vnodes(m: Map<u64, Seq<char>>, id: Seq<char>, n: nat) -> Map<
    u64,
    Seq<char>,
> {
    Map::new(|h: u64| m.contains_key(h) && !is_vnode(id, n, h), |h: u64| m[h])
}

/// Whether `p` is the first held position at or after `h`, wrapping around.
pub open spec fn is_successor(m: Map<u64, Seq<char>>, h: u64, p: u64) -> bool {
    &&& m.contains_key(p)
    &&& {
        ||| p >= h && forall|q: u64| m.contains_key(q) && q >= h ==> p <= q
        ||| (forall|q: u64| m.contains_key(q) ==> q < h) && (forall|q: u64|
            m.contains_key(q) ==> p <= q)
    }
}

/// How many points come before position `h`.
pub open spec fn before(points: Seq<(u64, String)>, h: u64) -> int
    decreases points.len(),
{
    if points.len() == 0 {
        0
    } else if points.last().0 < h {
        points.len() as int
    } else {
        before(points.drop_last(), h)
    }
}

/// The ids met when walking once around the ring from position `h`.
pub open spec fn walk(points: Seq<(u64, String)>, h: u64) -> Seq<Seq<char>> {
    ids(points.skip(before(points, h))) + ids(points.take(before(points, h)))
}

/// The distinct elements of `s`, each at its first occurrence.
pub open spec fn firsts(s: Seq<Seq<char>>) -> Seq<Seq<char>>
    decreases s.len(),
{
    if s.len() == 0 {
        Seq::empty()
    } else {
        let f = firsts(s.drop_last());
        if f.contains(s.last()) {
            f
        } else {
            f.push(s.last())
        }
    }
}

/// What [`before`] counts.
pub proof fn lemma_before(points: Seq<(u64, String)>, h: u64)
    requires
        ascending(points),
    ensures
        0 <= before(points, h) <= points.len(),
        forall|i: int| 0 <= i < before(points, h) ==> (#[trigger] points[i]).0 < h,
        forall|i: int| before(points, h) <= i < points.len() ==> (#[trigger] points[i]).0 >= h,
    decreases points.len(),
{
    if points.len() > 0 {
        let p = points.drop_last();
        assert forall|i: int, j: int| 0 <= i < j < p.len() implies (#[trigger] p[i]).0 < (
        #[trigger] p[j]).0 by {
            assert(points[i].0 < points[j].0);
        }
        lemma_before(p, h);
        if points.last().0 < h {
            assert forall|i: int| 0 <= i < points.len() implies (#[trigger] points[i]).0 < h by {
                if i < points.len() - 1 {
                    assert(points[i].0 < points[points.len() - 1].0);
                }
            }
        } else {
            assert forall|i: int| 0 <= i < before(points, h) implies (#[trigger] points[i]).0
                < h by {
                assert(p[i].0 < h);
            }
            assert forall|i: int| before(points, h) <= i < points.len() implies (
            #[trigger] points[i]).0 >= h by {
                if i < points.len() - 1 {
                    assert(p[i].0 >= h);
                }
            }
        }
    }
}

/// [`before`] is the only split of the points at `h`.
pub proof fn lemma_before_unique(points: Seq<(u64, String)>, h: u64, s: int)
    requires
        ascending(points),
        0 <= s <= points.len(),
        forall|i: int| 0 <= i < s ==> (#[trigger] points[i]).0 < h,
        forall|i: int| s <= i < points.len() ==> (#[trigger] points[i]).0 >= h,
    ensures
        s == before(points, h),
{
    lemma_before(points, h);
    let b = before(points, h);
    if s < b {
        assert(points[s].0 < h);
    } else if b < s {
        assert(points[b].0 >= h);
    }
}

/// A point at index `i` occupies its position.
pub proof fn lemma_occupied(points: Seq<(u64, String)>, i: int)
    requires
        ascending(points),
        0 <= i < points.len(),
    ensures
        occupied(points).contains_key(points[i].0),
        occupied(points)[points[i].0] == points[i].1@,
{
    let h = points[i].0;
    assert(positions(points)[i] == h);
    let j = positions(points).index_of(h);
    assert(positions(points)[j] == h);
    if i < j {
        assert(points[i].0 < points[j].0);
    } else if j < i {
        assert(points[j].0 < points[i].0);
    }
}

/// Every occupied position has a point.
pub proof fn lemma_occupied_index(points: Seq<(u64, String)>, h: u64) -> (i: int)
    requires
        ascending(points),
        occupied(points).contains_key(h),
    ensures
        0 <= i < points.len(),
        points[i].0 == h,
        points[i].1@ == occupied(points)[h],
{
    let i = positions(points).index_of(h);
    assert(positions(points)[i] == h);
    i
}

/// Distinct elements: each once, the same members, no longer than the source.
pub proof fn lemma_firsts(s: Seq<Seq<char>>)
    ensures
        firsts(s).no_duplicates(),
        firsts(s).len() <= s.len(),
        forall|x: Seq<char>| firsts(s).contains(x) <==> s.contains(x),
        s.len() > 0 ==> firsts(s).len() > 0 && firsts(s)[0] == s[0],
    decreases s.len(),
{
    if s.len() > 0 {
        let d = s.drop_last();
        lemma_firsts(d);
        let f = firsts(d);
        assert forall|x: Seq<char>| firsts(s).contains(x) <==> s.contains(x) by {
            if s.contains(x) {
                let i = s.index_of(x);
                if i < s.len() - 1 {
                    assert(d[i] == x);
                    assert(d.contains(x));
                    assert(f.contains(x));
                    let j = f.index_of(x);
                    assert(firsts(s)[j] == x);
                } else {
                    if !f.contains(x) {
                        assert(firsts(s)[f.len() as int] == x);
                    }
                }
            }
            if firsts(s).contains(x) {
                let i = firsts(s).index_of(x);
                if i < f.len() {
                    assert(f[i] == x);
                    assert(d.contains(x));
                    let j = d.index_of(x);
                    assert(s[j] == x);
                } else {
                    assert(s[s.len() - 1] == x);
                }
            }
        }
        if s.len() == 1 {
            assert(f.len() == 0);
            assert(firsts(s)[0] == s[0]);
        } else {
            assert(d[0] == s[0]);
        }
    }
}

/// A longer prefix only adds distinct elements at the end.
proof fn lemma_firsts_prefix(s: Seq<Seq<char>>, n: int)
    requires
        0 <= n <= s.len(),
    ensures
        firsts(s.take(n)).len() <= firsts(s).len(),
        firsts(s).take(firsts(s.take(n)).len() as int) == firsts(s.take(n)),
    decreases s.len(),
{
    if n < s.len() {
        lemma_firsts_prefix(s.drop_last(), n);
        assert(s.drop_last().take(n) == s.take(n));
        let k = firsts(s.take(n)).len() as int;
        assert(firsts(s).take(k) =~= firsts(s.drop_last()).take(k));
    } else {
        assert(s.take(n) == s);
        assert(firsts(s).take(firsts(s).len() as int) == firsts(s));
    }
}

/// Consistent-hash ring with virtual nodes for even key distribution.
pub struct HashRing {
    /// The physical nodes by id.
    pub nodes: StrMap<RingNode>,
    /// The virtual nodes, ascending by position.
    pub ring: Vec<(u64, String)>,
    /// Virtual nodes per physical node.
    pub virtual_nodes: u32,
}

/// The position of the `i`-th virtual node of `id`.
fn vnode_hash(id: &str, i: u32) -> (h: u64)
    ensures
        h == key_hash(vnode_key(id@, i as nat)),
{
    let mut key = id.to_string();
    key.push_str(":vnode:");
    push_decimal(&mut key, i as u64);
    hash_key(key.as_str())
}

/// The index of the first point at or after `h`.
fn first_at_or_after(points: &Vec<(u64, String)>, h: u64) -> (s: usize)
    requires
        ascending(points@),
    ensures
        s == before(points@, h),
        s <= points@.len(),
{
    let mut s: usize = 0;
    while s < points.len() && points[s].0 < h
        invariant
            s <= points@.len(),
            forall|i: int| 0 <= i < s ==> (#[trigger] points@[i]).0 < h,
        decreases points@.len() - s,
    {
        s += 1;
    }
    proof {
        assert forall|i: int| s <= i < points@.len() implies (#[trigger] points@[i]).0 >= h by {
            if s < i {
                assert(points@[s as int].0 < points@[i].0);
            }
        }
        lemma_before_unique(points@, h, s as int);
    }
    s
}

/// Puts `id` at position `h`, replacing what was there.
fn occupy(points: &mut Vec<(u64, String)>, h: u64, id: String)
    requires
        ascending(old(points)@),
    ensures
        ascending(final(points)@),
        occupied(final(points)@) == occupied(old(points)@).insert(h, id@),
{
    let ghost p = points@;
    let s: usize = first_at_or_after(points, h);
    proof {
        lemma_before(p, h);
    }
    if s < points.len() && points[s].0 == h {
        points[s].1 = id;
        proof {
            let q = points@;
            assert(positions(q) =~= positions(p));
            assert(ascending(q));
            assert forall|x: u64| occupied(q).contains_key(x) implies occupied(q)[x] == occupied(
                p,
            ).insert(h, id@)[x] by {
                let i = lemma_occupied_index(q, x);
                lemma_occupied(p, i);
                if i != s {
                    assert(x != h) by {
                        if i < s {
                            assert(p[i].0 < p[s as int].0);
                        } else {
                            assert(p[s as int].0 < p[i].0);
                        }
                    }
                }
            }
            lemma_occupied(p, s as int);
            assert(occupied(q) =~= occupied(p).insert(h, id@));
        }
    } else {
        points.insert(s, (h, id));
        proof {
            let q = points@;
            assert(q =~= p.insert(s as int, (h, id)));
            assert forall|i: int, j: int| 0 <= i < j < q.len() implies (#[trigger] q[i]).0 < (
            #[trigger] q[j]).0 by {
                let i2 = if i < s {
                    i
                } else {
                    i - 1
                };
                let j2 = if j < s {
                    j
                } else {
                    j - 1
                };
                if i == s {
                    assert(p[j2].0 >= h);
                    if j2 > s {
                        assert(p[s as int].0 < p[j2].0);
                    }
                } else if j == s {
                    assert(p[i2].0 < h);
                } else {
                    assert(p[i2].0 < p[j2].0);
                }
            }
            assert forall|x: u64|
                occupied(q).contains_key(x) <==> (occupied(p).contains_key(x) || x == h) by {
                if occupied(q).contains_key(x) {
                    let i = lemma_occupied_index(q, x);
                    if i < s {
                        lemma_occupied(p, i);
                    } else if i > s {
                        lemma_occupied(p, i - 1);
                    }
                }
                if occupied(p).contains_key(x) {
                    let i = lemma_occupied_index(p, x);
                    if i < s {
                        lemma_occupied(q, i);
                    } else {
                        lemma_occupied(q, i + 1);
                    }
                }
                lemma_occupied(q, s as int);
            }
            assert forall|x: u64| occupied(q).contains_key(x) implies occupied(q)[x] == occupied(
                p,
            ).insert(h, id@)[x] by {
                let i = lemma_occupied_index(q, x);
                if i < s {
                    lemma_occupied(p, i);
                    assert(q[i].0 < q[s as int].0);
                } else if i > s {
                    lemma_occupied(p, i - 1);
                    assert(q[s as int].0 < q[i].0);
                }
            }
            assert(occupied(q) =~= occupied(p).insert(h, id@));
        }
    }
}

/// Clears position `h`.
fn vacate(points: &mut Vec<(u64, String)>, h: u64)
    requires
        ascending(old(points)@),
    ensures
        ascending(final(points)@),
        occupied(final(points)@) == occupied(old(points)@).remove(h),
{
    let ghost p = points@;
    let s: usize = first_at_or_after(points, h);
    proof {
        lemma_before(p, h);
    }
    if s < points.len() && points[s].0 == h {
        let _ = points.remove(s);
        proof {
            let q = points@;
            assert(q =~= p.remove(s as int));
            assert forall|i: int, j: int| 0 <= i < j < q.len() implies (#[trigger] q[i]).0 < (
            #[trigger] q[j]).0 by {
                let i2 = if i < s {
                    i
                } else {
                    i + 1
                };
                let j2 = if j < s {
                    j
                } else {
                    j + 1
                };
                assert(p[i2].0 < p[j2].0);
            }
            assert forall|x: u64|
                occupied(q).contains_key(x) <==> (occupied(p).contains_key(x) && x != h) by {
                if occupied(q).contains_key(x) {
                    let i = lemma_occupied_index(q, x);
                    if i < s {
                        lemma_occupied(p, i);
                        assert(p[i].0 < p[s as int].0);
                    } else {
                        lemma_occupied(p, i + 1);
                        assert(p[s as int].0 < p[i + 1].0);
                    }
                }
                if occupied(p).contains_key(x) && x != h {
                    let i = lemma_occupied_index(p, x);
                    if i < s {
                        lemma_occupied(q, i);
                    } else {
                        lemma_occupied(q, i - 1);
                    }
                }
            }
            assert forall|x: u64| occupied(q).contains_key(x) implies occupied(q)[x] == occupied(
                p,
            ).remove(h)[x] by {
                let i = lemma_occupied_index(q, x);
                if i < s {
                    lemma_occupied(p, i);
                } else {
                    lemma_occupied(p, i + 1);
                }
            }
            assert(occupied(q) =~= occupied(p).remove(h));
        }
    } else {
        proof {
            if occupied(p).contains_key(h) {
                let i = lemma_occupied_index(p, h);
                if i < s {
                    assert(p[i].0 < h);
                } else if i > s {
                    assert(p[s as int].0 < p[i].0);
                    assert(p[s as int].0 >= h);
                }
            }
            assert(occupied(p) =~= occupied(p).remove(h));
        }
    }
}

impl HashRing {
    /// Which id holds each occupied position.
    pub open spec fn occupied(&self) -> Map<u64, Seq<char>> {
        occupied(self.ring@)
    }

    /// Nodes are stored under their ids, the virtual nodes are in order, and
    /// each belongs to a present node at one of that node's positions.
    pub open spec fn wf(&self) -> bool {
        &&& self.nodes.wf()
        &&& ascending(self.ring@)
        &&& forall|id: Seq<char>|
            self.nodes@.contains_key(id) ==> (#[trigger] self.nodes@[id]).id@ == id
        &&& forall|h: u64|
            self.occupied().contains_key(h) ==> self.nodes@.contains_key(
                #[trigger] self.occupied()[h],
            ) && is_vnode(self.occupied()[h], self.virtual_nodes as nat, h)
    }

    /// The ids met when walking once around the ring from a position.
    pub open spec fn walk_at(&self, position: u64) -> Seq<Seq<char>> {
        walk(self.ring@, position)
    }

    /// The distinct ids in walking order from a position.
    pub open spec fn preference_at(&self, position: u64) -> Seq<Seq<char>> {
        firsts(self.walk_at(position))
    }

    /// The ids met when walking once around the ring from the key's position.
    pub open spec fn walk_from(&self, key: Seq<char>) -> Seq<Seq<char>> {
        self.walk_at(key_hash(key))
    }

    /// The distinct ids in walking order from the key's position.
    pub open spec fn preference(&self, key: Seq<char>) -> Seq<Seq<char>> {
        self.preference_at(key_hash(key))
    }

    /// Every id met on a walk is a present node, and the walk is as long as
    /// the ring.
    pub proof fn lemma_walk(&self, h: u64)
        requires
            self.wf(),
        ensures
            self.walk_at(h).len() == self.ring@.len(),
            forall|i: int|
                0 <= i < self.walk_at(h).len() ==> self.nodes@.contains_key(
                    #[trigger] self.walk_at(h)[i],
                ),
    {
        let p = self.ring@;
        lemma_before(p, h);
        let b = before(p, h);
        assert forall|i: int| 0 <= i < self.walk_at(h).len() implies self.nodes@.contains_key(
            #[trigger] self.walk_at(h)[i],
        ) by {
            let j = if i < p.len() - b {
                i + b
            } else {
                i - (p.len() - b)
            };
            assert(self.walk_at(h)[i] == p[j].1@);
            lemma_occupied(p, j);
            assert(self.nodes@.contains_key(self.occupied()[p[j].0]));
        }
    }

    /// An empty ring.
    pub fn new(virtual_nodes: u32) -> (r: Self)
        ensures
            r.wf(),
            r.nodes@ == Map::<Seq<char>, RingNode>::empty(),
            r.ring@.len() == 0,
            r.virtual_nodes == virtual_nodes,
    {
        HashRing { nodes: StrMap::new(), ring: Vec::new(), virtual_nodes }
    }

    /// Adds a node and its virtual nodes. A virtual node takes over a position
    /// that is already held.
    pub fn add_node(&mut self, node: RingNode)
        requires
            old(self).wf(),
        ensures
            final(self).wf(),
            final(self).virtual_nodes == old(self).virtual_nodes,
            final(self).nodes@ == old(self).nodes@.insert(node.id@, node),
            final(self).occupied() == with_vnodes(
                old(self).occupied(),
                node.id@,
                old(self).virtual_nodes as nat,
            ),
    {
        let ghost was = *self;
        let mut i: u32 = 0;
        let id = node.id.clone();
        while i < self.virtual_nodes
            invariant
                was == *old(self),
                was.wf(),
                self.virtual_nodes == was.virtual_nodes,
                self.nodes == was.nodes,
                i <= self.virtual_nodes,
                ascending(self.ring@),
                id@ == node.id@,
                forall|h: u64|
                    self.occupied().contains_key(h) <==> was.occupied().contains_key(h) || is_vnode(
                        id@,
                        i as nat,
                        h,
                    ),
                forall|h: u64|
                    #![trigger self.occupied()[h]]
                    self.occupied().contains_key(h) ==> self.occupied()[h] == (if is_vnode(
                        id@,
                        i as nat,
                        h,
                    ) {
                        id@
                    } else {
                        was.occupied()[h]
                    }),
            decreases self.virtual_nodes - i,
        {
            let ghost before_step = *self;
            let hash: u64 = vnode_hash(id.as_str(), i);
            occupy(&mut self.ring, hash, id.clone());
            proof {
                assert forall|h: u64|
                    is_vnode(id@, (i + 1) as nat, h) <==> (is_vnode(id@, i as nat, h) || h == hash) by {
                    if is_vnode(id@, (i + 1) as nat, h) {
                        let k = choose|k: nat|
                            k < i + 1 && #[trigger] key_hash(vnode_key(id@, k)) == h;
                        if k < i {
                            assert(is_vnode(id@, i as nat, h));
                        }
                    }
                    if is_vnode(id@, i as nat, h) {
                        let k = choose|k: nat|
                            k < i && #[trigger] key_hash(vnode_key(id@, k)) == h;
                        assert(k < i + 1);
                    }
                    if h == hash {
                        assert(key_hash(vnode_key(id@, i as nat)) == h);
                    }
                }
                assert forall|h: u64|
                    #![trigger self.occupied()[h]]
                    self.occupied().contains_key(h) implies self.occupied()[h] == (if is_vnode(
                    id@,
                    (i + 1) as nat,
                    h,
                ) {
                    id@
                } else {
                    was.occupied()[h]
                }) by {
                    if h != hash {
                        assert(self.occupied()[h] == before_step.occupied()[h]);
                    }
                }
            }
            i += 1;
        }
        let _ = self.nodes.insert(node.id.clone(), node);
        proof {
            assert forall|h: u64| self.occupied().contains_key(h) implies self.nodes@.contains_key(
                #[trigger] self.occupied()[h],
            ) && is_vnode(self.occupied()[h], self.virtual_nodes as nat, h) by {
                if !is_vnode(node.id@, self.virtual_nodes as nat, h) {
                    assert(was.nodes@.contains_key(was.occupied()[h]));
                }
            }
            assert(self.occupied() =~= with_vnodes(
                was.occupied(),
                node.id@,
                was.virtual_nodes as nat,
            ));
        }
    }

    /// Removes a node together with every position of its virtual nodes.
    pub fn remove_node(&mut self, node_id: &str) -> (r: Option<RingNode>)
        requires
            old(self).wf(),
        ensures
            final(self).wf(),
            final(self).virtual_nodes == old(self).virtual_nodes,
            match r {
                Some(n) => {
                    &&& old(self).nodes@.contains_key(node_id@)
                    &&& n == old(self).nodes@[node_id@]
                    &&& final(self).nodes@ == old(self).nodes@.remove(node_id@)
                    &&& final(self).occupied() == without_vnodes(
                        old(self).occupied(),
                        node_id@,
                        old(self).virtual_nodes as nat,
                    )
                },
                None => !old(self).nodes@.contains_key(node_id@) && *final(self) == *old(self),
            },
    {
        let ghost was = *self;
        if !self.nodes.contains_key(node_id) {
            return None;
        }
        let node = self.nodes.remove(node_id);
        let ghost nodes_after = self.nodes;
        let mut i: u32 = 0;
        while i < self.virtual_nodes
            invariant
                was == *old(self),
                was.wf(),
                self.virtual_nodes == was.virtual_nodes,
                self.nodes == nodes_after,
                i <= self.virtual_nodes,
                ascending(self.ring@),
                forall|h: u64|
                    self.occupied().contains_key(h) <==> was.occupied().contains_key(h)
                        && !is_vnode(node_id@, i as nat, h),
                forall|h: u64|
                    #![trigger self.occupied()[h]]
                    self.occupied().contains_key(h) ==> self.occupied()[h] == was.occupied()[h],
            decreases self.virtual_nodes - i,
        {
            let ghost before_step = *self;
            let hash: u64 = vnode_hash(node_id, i);
            vacate(&mut self.ring, hash);
            proof {
                assert forall|h: u64|
                    is_vnode(node_id@, (i + 1) as nat, h) <==> (is_vnode(node_id@, i as nat, h) || h
                        == hash) by {
                    if is_vnode(node_id@, (i + 1) as nat, h) {
                        let k = choose|k: nat|
                            k < i + 1 && #[trigger] key_hash(vnode_key(node_id@, k)) == h;
                        if k < i {
                            assert(is_vnode(node_id@, i as nat, h));
                        }
                    }
                    if is_vnode(node_id@, i as nat, h) {
                        let k = choose|k: nat|
                            k < i && #[trigger] key_hash(vnode_key(node_id@, k)) == h;
                        assert(k < i + 1);
                    }
                    if h == hash {
                        assert(key_hash(vnode_key(node_id@, i as nat)) == h);
                    }
                }
                assert forall|h: u64|
                    #![trigger self.occupied()[h]]
                    self.occupied().contains_key(h) implies self.occupied()[h] == was.occupied()[h] by {
                    assert(before_step.occupied().contains_key(h));
                    assert(self.occupied()[h] == before_step.occupied()[h]);
                }
            }
            i += 1;
        }
        proof {
            assert forall|h: u64| self.occupied().contains_key(h) implies self.nodes@.contains_key(
                #[trigger] self.occupied()[h],
            ) && is_vnode(self.occupied()[h], self.virtual_nodes as nat, h) by {
                assert(was.nodes@.contains_key(was.occupied()[h]));
                assert(is_vnode(was.occupied()[h], was.virtual_nodes as nat, h));
            }
            assert(self.occupied() =~= without_vnodes(
                was.occupied(),
                node_id@,
                was.virtual_nodes as nat,
            ));
        }
        node
    }

    /// The node that owns a position.
    pub fn get_node_at(&self, hash: u64) -> (r: Option<&RingNode>)
        requires
            self.wf(),
        ensures
            match r {
                Some(n) => self.walk_at(hash).len() > 0 && self.nodes@.contains_key(
                    self.walk_at(hash)[0],
                ) && *n == self.nodes@[self.walk_at(hash)[0]],
                None => self.ring@.len() == 0,
            },
    {
        if self.ring.len() == 0 {
            return None;
        }
        proof {
            self.lemma_walk(hash);
            lemma_before(self.ring@, hash);
        }
        let s: usize = first_at_or_after(&self.ring, hash);
        let at: usize = if s < self.ring.len() {
            s
        } else {
            0
        };
        assert(self.walk_at(hash)[0] == self.ring@[at as int].1@);
        self.nodes.get(self.ring[at].1.as_str())
    }

    /// The first `count` distinct nodes met when walking from a position.
    pub fn get_nodes_at(&self, hash: u64, count: usize) -> (r: Vec<&RingNode>)
        requires
            self.wf(),
        ensures
            r@.len() == vstd::math::min(count as int, self.preference_at(hash).len() as int),
            forall|i: int|
                0 <= i < r@.len() ==> #[trigger] self.nodes@.contains_key(
                    self.preference_at(hash)[i],
                ),
            forall|i: int|
                0 <= i < r@.len() ==> *(#[trigger] r@[i]) == self.nodes@[self.preference_at(hash)[i]],
    {
        let mut result: Vec<&RingNode> = Vec::new();
        if self.ring.len() == 0 || count == 0 {
            assert(self.ring@.len() == 0 ==> self.preference_at(hash).len() == 0) by {
                self.lemma_walk(hash);
            }
            return result;
        }
        let s: usize = first_at_or_after(&self.ring, hash);
        let n: usize = self.ring.len();
        let mut seen: Vec<String> = Vec::new();
        let ghost w = self.walk_at(hash);
        proof {
            self.lemma_walk(hash);
            lemma_before(self.ring@, hash);
            assert(w.take(0).len() == 0);
        }
        let mut i: usize = 0;
        let total: usize = self.nodes.len();
        assert(strs(seen@) =~= firsts(w.take(0)));
        while i < n && result.len() < count && seen.len() < total
            invariant
                self.wf(),
                total == self.nodes.entries@.len(),
                w == self.walk_at(hash),
                w == walk(self.ring@, hash),
                s == before(self.ring@, hash),
                s <= n,
                n == self.ring@.len() == w.len(),
                i <= n,
                forall|j: int| 0 <= j < w.len() ==> self.nodes@.contains_key(#[trigger] w[j]),
                strs(seen@) == firsts(w.take(i as int)),
                result@.len() == seen@.len(),
                result@.len() <= count,
                forall|j: int|
                    0 <= j < result@.len() ==> #[trigger] self.nodes@.contains_key(strs(seen@)[j]),
                forall|j: int|
                    0 <= j < result@.len() ==> *(#[trigger] result@[j]) == self.nodes@[strs(
                        seen@,
                    )[j]],
            decreases n - i,
        {
            let at: usize = if i < n - s {
                i + s
            } else {
                i - (n - s)
            };
            let id: &String = &self.ring[at].1;
            proof {
                assert(w[i as int] == id@);
                assert(w.take(i as int + 1).drop_last() == w.take(i as int));
                assert(w.take(i as int + 1).last() == id@);
                assert(self.nodes@.contains_key(w[i as int]));
            }
            if !contains_str(&seen, id.as_str()) {
                match self.nodes.get(id.as_str()) {
                    Some(node) => {
                        let ghost seen_before = seen@;
                        seen.push(id.clone());
                        result.push(node);
                        assert(strs(seen@) =~= strs(seen_before).push(id@));
                    },
                    None => {},
                }
            }
            i += 1;
        }
        proof {
            if i == n {
                assert(w.take(n as int) == w);
            } else if seen.len() >= total {
                self.lemma_all_seen(hash, i as int);
            }
            lemma_firsts_prefix(w, i as int);
            let pref = self.preference_at(hash);
            assert(strs(seen@) == pref.take(seen@.len() as int));
            assert(result@.len() == count || pref == strs(seen@));
            assert forall|j: int| 0 <= j < result@.len() implies #[trigger] self.nodes@.contains_key(
                self.preference_at(hash)[j],
            ) by {
                assert(strs(seen@)[j] == self.preference_at(hash)[j]);
                assert(self.nodes@.contains_key(strs(seen@)[j]));
            }
            assert forall|j: int| 0 <= j < result@.len() implies *(#[trigger] result@[j])
                == self.nodes@[self.preference_at(hash)[j]] by {
                assert(strs(seen@)[j] == self.preference_at(hash)[j]);
            }
        }
        result
    }

    /// Once as many distinct ids were met as there are nodes, the rest of the
    /// walk adds none.
    proof fn lemma_all_seen(&self, h: u64, i: int)
        requires
            self.wf(),
            0 <= i <= self.walk_at(h).len(),
            firsts(self.walk_at(h).take(i)).len() >= self.nodes.entries@.len(),
        ensures
            firsts(self.walk_at(h)) == firsts(self.walk_at(h).take(i)),
    {
        let w = self.walk_at(h);
        self.lemma_walk(h);
        lemma_firsts(w);
        lemma_firsts_prefix(w, i);
        self.nodes.lemma_len();
        let f = firsts(w);
        f.unique_seq_to_set();
        assert(f.to_set().subset_of(self.nodes@.dom())) by {
            assert forall|x: Seq<char>| f.to_set().contains(x) implies self.nodes@.dom().contains(x) by {
                assert(f.contains(x));
                assert(w.contains(x));
                let j = w.index_of(x);
                assert(self.nodes@.contains_key(w[j]));
            }
        }
        vstd::set_lib::lemma_len_subset(f.to_set(), self.nodes@.dom());
        assert(f.len() == firsts(w.take(i)).len());
        assert(f.take(f.len() as int) == f);
    }

    /// The node that owns `key`.
    pub fn get_node(&self, key: &str) -> (r: Option<&RingNode>)
        requires
            self.wf(),
        ensures
            match r {
                Some(n) => self.walk_from(key@).len() > 0 && self.nodes@.contains_key(
                    self.walk_from(key@)[0],
                ) && *n == self.nodes@[self.walk_from(key@)[0]],
                None => self.ring@.len() == 0,
            },
    {
        self.get_node_at(hash_key(key))
    }

    /// The first `count` distinct nodes met when walking from the key.
    pub fn get_nodes(&self, key: &str, count: usize) -> (r: Vec<&RingNode>)
        requires
            self.wf(),
        ensures
            r@.len() == vstd::math::min(count as int, self.preference(key@).len() as int),
            forall|i: int|
                0 <= i < r@.len() ==> #[trigger] self.nodes@.contains_key(
                    self.preference(key@)[i],
                ),
            forall|i: int|
                0 <= i < r@.len() ==> *(#[trigger] r@[i]) == self.nodes@[self.preference(key@)[i]],
    {
        self.get_nodes_at(hash_key(key), count)
    }

    /// Every node, each once.
    pub fn get_all_nodes(&self) -> (r: Vec<&RingNode>)
        requires
            self.wf(),
        ensures
            r@.len() == self.nodes@.dom().len(),
            forall|i: int|
                0 <= i < r@.len() ==> self.nodes@.contains_key((#[trigger] r@[i]).id@) && *r@[i]
                    == self.nodes@[r@[i].id@],
            forall|i: int, j: int|
                0 <= i < j < r@.len() ==> (#[trigger] r@[i]).id@ != (#[trigger] r@[j]).id@,
    {
        let mut r: Vec<&RingNode> = Vec::new();
        let mut i: usize = 0;
        proof {
            self.nodes.lemma_len();
        }
        while i < self.nodes.entries.len()
            invariant
                self.wf(),
                i <= self.nodes.entries@.len(),
                r@.len() == i,
                forall|j: int| 0 <= j < i ==> *(#[trigger] r@[j]) == self.nodes.entries@[j].1,
            decreases self.nodes.entries@.len() - i,
        {
            r.push(&self.nodes.entries[i].1);
            i += 1;
        }
        proof {
            assert forall|j: int| 0 <= j < r@.len() implies self.nodes@.contains_key(
                (#[trigger] r@[j]).id@,
            ) && *r@[j] == self.nodes@[r@[j].id@] && r@[j].id@ == self.nodes.keys()[j] by {
                self.nodes.lemma_entry(j);
                assert(self.nodes@[self.nodes.entries@[j].0@].id@ == self.nodes.entries@[j].0@);
            }
            assert forall|a: int, b: int| 0 <= a < b < r@.len() implies (#[trigger] r@[a]).id@ != (
            #[trigger] r@[b]).id@ by {
                assert(self.nodes.keys()[a] != self.nodes.keys()[b]);
            }
        }
        r
    }

    /// The number of physical nodes.
    pub fn node_count(&self) -> (n: usize)
        requires
            self.wf(),
        ensures
            n == self.nodes@.dom().len(),
    {
        self.nodes.len()
    }

    /// The number of occupied positions.
    pub fn virtual_node_count(&self) -> (n: usize)
        requires
            self.wf(),
        ensures
            n == self.occupied().dom().len(),
            n == self.ring@.len(),
    {
        proof {
            let p = positions(self.ring@);
            assert forall|i: int, j: int| 0 <= i < j < p.len() implies p[i] != p[j] by {
                assert(self.ring@[i].0 < self.ring@[j].0);
            }
            p.unique_seq_to_set();
            assert(self.occupied().dom() =~= p.to_set());
        }
        self.ring.len()
    }

    /// Whether a node with this id is present.
    pub fn contains(&self, node_id: &str) -> (r: bool)
        requires
            self.wf(),
        ensures
            r == self.nodes@.contains_key(node_id@),
    {
        self.nodes.contains_key(node_id)
    }
}

/// Where the walk from `h` starts: the successor of `h`.
pub proof fn lemma_walk_start(points: Seq<(u64, String)>, h: u64) -> (p: u64)
    requires
        ascending(points),
        points.len() > 0,
    ensures
        is_successor(occupied(points), h, p),
        walk(points, h).len() == points.len(),
        walk(points, h)[0] == occupied(points)[p],
{
    lemma_before(points, h);
    let b = before(points, h);
    let at = if b < points.len() {
        b
    } else {
        0
    };
    let p = points[at].0;
    lemma_occupied(points, at);
    assert(walk(points, h)[0] == points[at].1@);
    let m = occupied(points);
    if b < points.len() {
        assert forall|q: u64| m.contains_key(q) && q >= h implies p <= q by {
            let j = lemma_occupied_index(points, q);
            if j < b {
                assert(points[j].0 < h);
            } else if j > b {
                assert(points[b].0 < points[j].0);
            }
        }
    } else {
        assert forall|q: u64| m.contains_key(q) implies q < h && p <= q by {
            let j = lemma_occupied_index(points, q);
            assert(points[j].0 < h);
            if j > 0 {
                assert(points[0].0 < points[j].0);
            }
        }
    }
    p
}

impl HashRing {
    /// The id that owns a position.
    pub open spec fn owner_at(&self, position: u64) -> Option<Seq<char>> {
        if self.ring@.len() == 0 {
            None
        } else {
            Some(self.walk_at(position)[0])
        }
    }

    /// The id that owns a key.
    pub open spec fn owner(&self, key: Seq<char>) -> Option<Seq<char>> {
        self.owner_at(key_hash(key))
    }

    /// The owner of a position comes first in its order of preference, which
    /// lists no node twice and only nodes that are present.
    pub proof fn law_preference(&self, h: u64)
        requires
            self.wf(),
        ensures
            self.preference_at(h).no_duplicates(),
            self.preference_at(h).len() <= self.nodes@.dom().len(),
            self.owner_at(h) is Some ==> self.preference_at(h).len() > 0 && self.preference_at(h)[0]
                == self.owner_at(h)->0,
            self.owner_at(h) is None ==> self.preference_at(h).len() == 0,
            forall|i: int|
                0 <= i < self.preference_at(h).len() ==> self.nodes@.contains_key(
                    #[trigger] self.preference_at(h)[i],
                ),
    {
        let w = self.walk_at(h);
        let f = self.preference_at(h);
        self.lemma_walk(h);
        lemma_firsts(w);
        assert forall|i: int| 0 <= i < f.len() implies self.nodes@.contains_key(
            #[trigger] f[i],
        ) by {
            assert(f.contains(f[i]));
            assert(w.contains(f[i]));
            let j = w.index_of(f[i]);
            assert(self.nodes@.contains_key(w[j]));
        }
        self.nodes.lemma_len();
        f.unique_seq_to_set();
        assert(f.to_set().subset_of(self.nodes@.dom()));
        vstd::set_lib::lemma_len_subset(f.to_set(), self.nodes@.dom());
    }

    /// Adding a node moves keys only to that node.
    pub proof fn law_adding_moves_keys_only_to_the_new_node(
        before: HashRing,
        after: HashRing,
        id: Seq<char>,
        h: u64,
    )
        requires
            before.wf(),
            after.wf(),
            after.occupied() == with_vnodes(
                before.occupied(),
                id,
                before.virtual_nodes as nat,
            ),
        ensures
            after.owner_at(h) == before.owner_at(h) || after.owner_at(h) == Some(id),
    {
        let n = before.virtual_nodes as nat;
        if after.ring@.len() > 0 {
            let p = lemma_walk_start(after.ring@, h);
            if !is_vnode(id, n, p) {
                assert(before.occupied().contains_key(p));
                let i = lemma_occupied_index(before.ring@, p);
                let q = lemma_walk_start(before.ring@, h);
                assert(after.occupied().contains_key(q));
                assert(p == q);
            }
        } else {
            if before.ring@.len() > 0 {
                lemma_occupied(before.ring@, 0);
                assert(after.occupied().contains_key(before.ring@[0].0));
                let i = lemma_occupied_index(after.ring@, before.ring@[0].0);
            }
        }
    }

    /// Removing a node moves only the keys that it owned, provided that none
    /// of its positions is held by another node.
    pub proof fn law_removing_moves_only_its_own_keys(
        before: HashRing,
        after: HashRing,
        id: Seq<char>,
        h: u64,
    )
        requires
            before.wf(),
            after.wf(),
            after.occupied() == without_vnodes(
                before.occupied(),
                id,
                before.virtual_nodes as nat,
            ),
            forall|h: u64|
                #![trigger before.occupied()[h]]
                is_vnode(id, before.virtual_nodes as nat, h) && before.occupied().contains_key(h)
                    ==> before.occupied()[h] == id,
            before.owner_at(h) != Some(id),
        ensures
            after.owner_at(h) == before.owner_at(h),
    {
        let n = before.virtual_nodes as nat;
        if before.ring@.len() > 0 {
            let p = lemma_walk_start(before.ring@, h);
            assert(before.occupied()[p] != id);
            assert(after.occupied().contains_key(p));
            let i = lemma_occupied_index(after.ring@, p);
            let q = lemma_walk_start(after.ring@, h);
            assert(before.occupied().contains_key(q));
            assert(p == q);
        } else {
            if after.ring@.len() > 0 {
                lemma_occupied(after.ring@, 0);
                assert(before.occupied().contains_key(after.ring@[0].0));
                let i = lemma_occupied_index(before.ring@, after.ring@[0].0);
            }
        }
    }
}

/// The virtual nodes of some ids: each by its id and its number.
pub open spec fn places(ids: Set<Seq<char>>, n: nat) -> Set<(Seq<char>, nat)> {
    Set::new(|p: (Seq<char>, nat)| ids.contains(p.0) && p.1 < n)
}

/// The position of a virtual node.
pub open spec fn place(p: (Seq<char>, nat)) -> u64 {
    key_hash(vnode_key(p.0, p.1))
}

/// Whether no two of the virtual nodes of some ids share a position.
pub open spec fn apart(ids: Set<Seq<char>>, n: nat) -> bool {
    forall|p: (Seq<char>, nat), q: (Seq<char>, nat)|
        places(ids, n).contains(p) && places(ids, n).contains(q) && #[trigger] place(p)
            == #[trigger] place(q) ==> p == q
}

/// One id has `n` virtual nodes.
proof fn lemma_column_len(id: Seq<char>, n: nat)
    ensures
        places(set![id], n).finite(),
        places(set![id], n).len() == n,
    decreases n,
{
    if n == 0 {
        assert(places(set![id], n) =~= Set::<(Seq<char>, nat)>::empty());
    } else {
        let m = (n - 1) as nat;
        lemma_column_len(id, m);
        assert(places(set![id], n) =~= places(set![id], m).insert((id, m)));
    }
}

/// As many ids as there are have `n` virtual nodes each.
proof fn lemma_places_len(ids: Set<Seq<char>>, n: nat)
    requires
        ids.finite(),
    ensures
        places(ids, n).finite(),
        places(ids, n).len() == ids.len() * n,
    decreases ids.len(),
{
    if ids.len() == 0 {
        assert(places(ids, n) =~= Set::<(Seq<char>, nat)>::empty());
    } else {
        let id = ids.choose();
        let rest = ids.remove(id);
        lemma_places_len(rest, n);
        lemma_column_len(id, n);
        let a = places(rest, n);
        let b = places(set![id], n);
        assert(places(ids, n) =~= a.union(b));
        assert(a.disjoint(b));
        vstd::set_lib::lemma_set_disjoint_lens(a, b);
        assert(ids.len() == rest.len() + 1);
        assert((rest.len() + 1) * n == rest.len() * n + n) by (nonlinear_arith);
    }
}

/// Virtual nodes take at most as many positions as there are virtual nodes, and
/// exactly as many where no two share one.
proof fn lemma_place_count(s: Set<(Seq<char>, nat)>)
    requires
        s.finite(),
    ensures
        s.map(|p: (Seq<char>, nat)| place(p)).finite(),
        s.map(|p: (Seq<char>, nat)| place(p)).len() <= s.len(),
        s.map(|p: (Seq<char>, nat)| place(p)).len() == s.len() <==> forall|
            p: (Seq<char>, nat),
            q: (Seq<char>, nat),
        |
            s.contains(p) && s.contains(q) && #[trigger] place(p) == #[trigger] place(q) ==> p == q,
    decreases s.len(),
{
    let f = |p: (Seq<char>, nat)| place(p);
    if s.len() == 0 {
        assert(s.map(f) =~= Set::<u64>::empty());
    } else {
        let a = s.choose();
        let rest = s.remove(a);
        lemma_place_count(rest);
        let image = rest.map(f);
        assert(s.map(f) =~= image.insert(place(a))) by {
            assert forall|h: u64| s.map(f).contains(h) <==> image.insert(place(a)).contains(h) by {
                if s.map(f).contains(h) {
                    let p = choose|p: (Seq<char>, nat)| s.contains(p) && f(p) == h;
                    if p != a {
                        assert(rest.contains(p) && f(p) == h);
                    }
                }
                if image.contains(h) {
                    let p = choose|p: (Seq<char>, nat)| rest.contains(p) && f(p) == h;
                    assert(s.contains(p) && f(p) == h);
                }
                if h == place(a) {
                    assert(s.contains(a) && f(a) == h);
                }
            }
        }
        if s.map(f).len() == s.len() {
            assert(!image.contains(place(a)));
            assert(image.len() == rest.len());
            assert forall|p: (Seq<char>, nat), q: (Seq<char>, nat)|
                s.contains(p) && s.contains(q) && #[trigger] place(p) == #[trigger] place(
                    q,
                ) implies p == q by {
                if p == a && q != a {
                    assert(rest.contains(q) && f(q) == place(a));
                    assert(image.contains(place(a)));
                } else if q == a && p != a {
                    assert(rest.contains(p) && f(p) == place(a));
                    assert(image.contains(place(a)));
                } else if p != a {
                    assert(rest.contains(p) && rest.contains(q));
                }
            }
        } else if forall|p: (Seq<char>, nat), q: (Seq<char>, nat)|
            s.contains(p) && s.contains(q) && #[trigger] place(p) == #[trigger] place(q) ==> p
                == q {
            assert forall|p: (Seq<char>, nat), q: (Seq<char>, nat)|
                rest.contains(p) && rest.contains(q) && #[trigger] place(p) == #[trigger] place(
                    q,
                ) implies p == q by {
                assert(s.contains(p) && s.contains(q));
            }
            if image.contains(place(a)) {
                let p = choose|p: (Seq<char>, nat)| rest.contains(p) && f(p) == place(a);
                assert(s.contains(p) && s.contains(a) && place(p) == place(a));
            }
        }
    }
}

/// A change of a ring's nodes.
pub enum RingChange {
    Added(Seq<char>),
    Removed(Seq<char>),
}

impl HashRing {
    /// Whether every virtual node of every present node has its position
    /// occupied.
    pub open spec fn is_full(&self) -> bool {
        forall|p: (Seq<char>, nat)|
            places(self.nodes@.dom(), self.virtual_nodes as nat).contains(p)
                ==> self.occupied().contains_key(#[trigger] place(p))
    }

    /// As many positions are occupied as there are points on the ring.
    proof fn lemma_occupied_len(&self)
        requires
            self.wf(),
        ensures
            self.occupied().dom().finite(),
            self.occupied().dom().len() == self.ring@.len(),
    {
        let p = positions(self.ring@);
        assert forall|i: int, j: int| 0 <= i < j < p.len() implies p[i] != p[j] by {
            assert(self.ring@[i].0 < self.ring@[j].0);
        }
        p.unique_seq_to_set();
        assert(self.occupied().dom() =~= p.to_set());
    }

    /// Positions number at most nodes times virtual nodes, and exactly as many
    /// where every virtual node of every node has a position of its own.
    pub proof fn law_positions_are_counted(&self)
        requires
            self.wf(),
        ensures
            self.occupied().dom().len() <= self.nodes@.dom().len() * self.virtual_nodes,
            self.occupied().dom().len() == self.nodes@.dom().len() * self.virtual_nodes
                <==> self.is_full() && apart(self.nodes@.dom(), self.virtual_nodes as nat),
    {
        let n = self.virtual_nodes as nat;
        let ids = self.nodes@.dom();
        let all = places(ids, n);
        let f = |p: (Seq<char>, nat)| place(p);
        let image = all.map(f);
        let dom = self.occupied().dom();
        self.nodes.lemma_len();
        lemma_places_len(ids, n);
        lemma_place_count(all);
        self.lemma_occupied_len();
        assert forall|h: u64| dom.contains(h) implies image.contains(h) by {
            let id = self.occupied()[h];
            assert(self.nodes@.contains_key(id));
            let i = choose|i: nat| i < n && #[trigger] key_hash(vnode_key(id, i)) == h;
            assert(all.contains((id, i)) && f((id, i)) == h);
        }
        assert(dom.subset_of(image));
        vstd::set_lib::lemma_len_subset(dom, image);
        if dom.len() == ids.len() * n {
            assert(image.len() == all.len());
            vstd::set_lib::lemma_subset_equality(dom, image);
            assert forall|p: (Seq<char>, nat)| all.contains(p) implies self.occupied().contains_key(
                #[trigger] place(p),
            ) by {
                assert(f(p) == place(p));
                assert(image.contains(place(p)));
            }
        } else if self.is_full() && apart(ids, n) {
            assert forall|h: u64| image.contains(h) implies dom.contains(h) by {
                let p = choose|p: (Seq<char>, nat)| all.contains(p) && f(p) == h;
                assert(self.occupied().contains_key(place(p)));
            }
            assert(dom =~= image);
        }
    }

    /// Where every virtual node has a position of its own, each position is held
    /// by the node that it belongs to.
    proof fn lemma_own_positions(&self, p: (Seq<char>, nat))
        requires
            self.wf(),
            self.is_full(),
            apart(self.nodes@.dom(), self.virtual_nodes as nat),
            places(self.nodes@.dom(), self.virtual_nodes as nat).contains(p),
        ensures
            self.occupied().contains_key(place(p)),
            self.occupied()[place(p)] == p.0,
    {
        let n = self.virtual_nodes as nat;
        let h = place(p);
        assert(self.occupied().contains_key(h));
        let id = self.occupied()[h];
        assert(self.nodes@.contains_key(id));
        let i = choose|i: nat| i < n && #[trigger] key_hash(vnode_key(id, i)) == h;
        let q = (id, i);
        assert(places(self.nodes@.dom(), n).contains(q));
        assert(place(q) == place(p));
    }

    /// Where every virtual node has a position of its own, a walk from anywhere
    /// meets every node, so that as many replicas as wanted are found, up to the
    /// number of nodes.
    pub proof fn law_every_node_is_met(&self, h: u64)
        requires
            self.wf(),
            self.virtual_nodes > 0,
            self.occupied().dom().len() == self.nodes@.dom().len() * self.virtual_nodes,
        ensures
            self.preference_at(h).len() == self.nodes@.dom().len(),
            self.preference_at(h).to_set() == self.nodes@.dom(),
    {
        self.law_positions_are_counted();
        self.law_preference(h);
        self.lemma_walk(h);
        let w = self.walk_at(h);
        let f = self.preference_at(h);
        lemma_firsts(w);
        lemma_before(self.ring@, h);
        let b = before(self.ring@, h);
        assert forall|id: Seq<char>| self.nodes@.dom().contains(id) <==> f.to_set().contains(id) by {
            if self.nodes@.dom().contains(id) {
                let p = (id, 0nat);
                assert(places(self.nodes@.dom(), self.virtual_nodes as nat).contains(p));
                self.lemma_own_positions(p);
                let j = lemma_occupied_index(self.ring@, place(p));
                let i = if j >= b {
                    j - b
                } else {
                    j + (self.ring@.len() - b)
                };
                assert(w[i] == self.ring@[j].1@);
                assert(w.contains(id));
                assert(f.contains(id));
            }
            if f.contains(id) {
                let i = f.index_of(id);
                assert(self.nodes@.contains_key(f[i]));
            }
        }
        assert(f.to_set() =~= self.nodes@.dom());
        f.unique_seq_to_set();
    }

    /// Asking for fewer nodes gives the first of those that asking for more
    /// gives, beginning with the owner.
    pub proof fn law_fewer_nodes_are_the_first(&self, h: u64, fewer: nat, more: nat)
        requires
            self.wf(),
            fewer <= more,
        ensures
            ({
                let p = self.preference_at(h);
                let many = p.take(vstd::math::min(more as int, p.len() as int));
                let few = p.take(vstd::math::min(fewer as int, p.len() as int));
                &&& few == many.take(vstd::math::min(fewer as int, many.len() as int))
                &&& more > 0 && self.owner_at(h) is Some ==> many.len() > 0 && many[0]
                    == self.owner_at(h)->0
            }),
    {
        self.law_preference(h);
        let p = self.preference_at(h);
        let many = p.take(vstd::math::min(more as int, p.len() as int));
        let few = p.take(vstd::math::min(fewer as int, p.len() as int));
        assert(few =~= many.take(vstd::math::min(fewer as int, many.len() as int)));
    }

    /// Adding a node keeps a full ring full.
    pub proof fn law_adding_keeps_a_ring_full(before: HashRing, after: HashRing, id: Seq<char>)
        requires
            before.is_full(),
            after.virtual_nodes == before.virtual_nodes,
            after.nodes@.dom() == before.nodes@.dom().insert(id),
            after.occupied() == with_vnodes(
                before.occupied(),
                id,
                before.virtual_nodes as nat,
            ),
        ensures
            after.is_full(),
    {
        let n = before.virtual_nodes as nat;
        assert forall|p: (Seq<char>, nat)|
            places(after.nodes@.dom(), n).contains(p) implies after.occupied().contains_key(
            #[trigger] place(p),
        ) by {
            if p.0 == id {
                assert(key_hash(vnode_key(id, p.1)) == place(p));
                assert(is_vnode(id, n, place(p)));
            } else {
                assert(places(before.nodes@.dom(), n).contains(p));
                assert(before.occupied().contains_key(place(p)));
            }
        }
    }

    /// Removing a node from a ring on which every virtual node has a position of
    /// its own clears exactly its positions: their number falls by that of its
    /// virtual nodes, the others still have positions of their own, and every
    /// position that another node owned keeps its owner.
    pub proof fn law_removing_clears_only_its_own_positions(
        before: HashRing,
        after: HashRing,
        id: Seq<char>,
        h: u64,
    )
        requires
            before.wf(),
            after.wf(),
            before.nodes@.contains_key(id),
            before.occupied().dom().len() == before.nodes@.dom().len() * before.virtual_nodes,
            after.virtual_nodes == before.virtual_nodes,
            after.nodes@ == before.nodes@.remove(id),
            after.occupied() == without_vnodes(
                before.occupied(),
                id,
                before.virtual_nodes as nat,
            ),
        ensures
            after.occupied().dom().len() == before.occupied().dom().len() - before.virtual_nodes,
            after.occupied().dom().len() == after.nodes@.dom().len() * after.virtual_nodes,
            before.owner_at(h) != Some(id) ==> after.owner_at(h) == before.owner_at(h),
    {
        let n = before.virtual_nodes as nat;
        let ids = before.nodes@.dom();
        before.law_positions_are_counted();
        assert(after.nodes@.dom() =~= ids.remove(id));
        before.nodes.lemma_len();
        assert forall|p: (Seq<char>, nat)|
            places(after.nodes@.dom(), n).contains(p) implies after.occupied().contains_key(
            #[trigger] place(p),
        ) by {
            assert(places(ids, n).contains(p));
            before.lemma_own_positions(p);
            if is_vnode(id, n, place(p)) {
                let i = choose|i: nat| i < n && #[trigger] key_hash(vnode_key(id, i)) == place(p);
                let q = (id, i);
                assert(places(ids, n).contains(q) && place(q) == place(p));
            }
        }
        assert(apart(after.nodes@.dom(), n)) by {
            assert forall|p: (Seq<char>, nat), q: (Seq<char>, nat)|
                places(after.nodes@.dom(), n).contains(p) && places(
                    after.nodes@.dom(),
                    n,
                ).contains(q) && #[trigger] place(p) == #[trigger] place(q) implies p == q by {
                assert(places(ids, n).contains(p) && places(ids, n).contains(q));
            }
        }
        after.law_positions_are_counted();
        assert(ids.len() == after.nodes@.dom().len() + 1);
        assert((ids.len() - 1) * n == ids.len() * n - n) by (nonlinear_arith);
        if before.owner_at(h) != Some(id) {
            assert forall|x: u64|
                #![trigger before.occupied()[x]]
                is_vnode(id, n, x) && before.occupied().contains_key(x) implies before.occupied()[x]
                == id by {
                let i = choose|i: nat| i < n && #[trigger] key_hash(vnode_key(id, i)) == x;
                let q = (id, i);
                assert(places(ids, n).contains(q) && place(q) == x);
                before.lemma_own_positions(q);
            }
            HashRing::law_removing_moves_only_its_own_keys(before, after, id, h);
        }
    }

    /// What [`HashRing::add_node`] and [`HashRing::remove_node`] do to a ring.
    pub open spec fn changed(before: HashRing, change: RingChange, after: HashRing) -> bool {
        let n = before.virtual_nodes as nat;
        &&& after.wf()
        &&& after.virtual_nodes == before.virtual_nodes
        &&& match change {
            RingChange::Added(id) => {
                &&& after.nodes@.dom() == before.nodes@.dom().insert(id)
                &&& after.occupied() == with_vnodes(before.occupied(), id, n)
            },
            RingChange::Removed(id) => if before.nodes@.contains_key(id) {
                &&& after.nodes@ == before.nodes@.remove(id)
                &&& after.occupied() == without_vnodes(before.occupied(), id, n)
            } else {
                after == before
            },
        }
    }

    /// Whatever nodes come and go, positions number nodes times virtual nodes, as
    /// long as no two virtual nodes of the nodes that were ever added share a
    /// position. Adding a present node again adds none then.
    pub proof fn law_positions_stay_counted(
        rings: Seq<HashRing>,
        changes: Seq<RingChange>,
        ever: Set<Seq<char>>,
    )
        requires
            rings.len() == changes.len() + 1,
            rings[0].wf(),
            rings[0].nodes@ == Map::<Seq<char>, RingNode>::empty(),
            rings[0].ring@.len() == 0,
            forall|i: int|
                0 <= i < changes.len() ==> HashRing::changed(
                    #[trigger] rings[i],
                    changes[i],
                    rings[i + 1],
                ),
            forall|i: int|
                0 <= i < changes.len() ==> ((#[trigger] changes[i]) matches RingChange::Added(id)
                    ==> ever.contains(id)),
            apart(ever, rings[0].virtual_nodes as nat),
        ensures
            rings.last().wf(),
            rings.last().virtual_nodes == rings[0].virtual_nodes,
            rings.last().nodes@.dom().subset_of(ever),
            rings.last().occupied().dom().len() == rings.last().nodes@.dom().len()
                * rings[0].virtual_nodes,
        decreases changes.len(),
    {
        let n = rings[0].virtual_nodes as nat;
        if changes.len() == 0 {
            rings[0].lemma_occupied_len();
            assert(rings[0].nodes@.dom() =~= Set::<Seq<char>>::empty());
        } else {
            let last = changes.len() - 1;
            let rs = rings.drop_last();
            let cs = changes.drop_last();
            assert forall|i: int| 0 <= i < cs.len() implies HashRing::changed(
                #[trigger] rs[i],
                cs[i],
                rs[i + 1],
            ) by {
                assert(rs[i] == rings[i]);
            }
            assert forall|i: int| 0 <= i < cs.len() implies ((#[trigger] cs[i]) matches
                RingChange::Added(id) ==> ever.contains(id)) by {
                assert(cs[i] == changes[i]);
            }
            HashRing::law_positions_stay_counted(rs, cs, ever);
            let before = rings[last];
            let after = rings[last + 1];
            assert(rs.last() == before);
            assert(HashRing::changed(before, changes[last], after));
            before.law_positions_are_counted();
            match changes[last] {
                RingChange::Added(id) => {
                    HashRing::law_adding_keeps_a_ring_full(before, after, id);
                    assert(apart(after.nodes@.dom(), n)) by {
                        assert forall|p: (Seq<char>, nat), q: (Seq<char>, nat)|
                            places(after.nodes@.dom(), n).contains(p) && places(
                                after.nodes@.dom(),
                                n,
                            ).contains(q) && #[trigger] place(p) == #[trigger] place(
                                q,
                            ) implies p == q by {
                            assert(places(ever, n).contains(p) && places(ever, n).contains(q));
                        }
                    }
                    after.law_positions_are_counted();
                },
                RingChange::Removed(id) => {
                    if before.nodes@.contains_key(id) {
                        HashRing::law_removing_clears_only_its_own_positions(before, after, id, 0);
                        assert(after.nodes@.dom().subset_of(ever));
                    }
                },
            }
        }
    }
}

impl Default for HashRing {
    fn default() -> (r: Self)
        ensures
            r.wf(),
            r.nodes@ == Map::<Seq<char>, RingNode>::empty(),
            r.ring@.len() == 0,
            r.virtual_nodes == 150,
    {
        Self::new(150)
    }
}

/// A position is owned by the node that holds the first position at or after it,
/// and, behind the last held position, by the one that holds the lowest.
pub proof fn law_owner_holds_the_next_position(r: HashRing, h: u64)
    requires
        r.wf(),
    ensures
        r.owner_at(h) is None <==> r.occupied().dom() == Set::<u64>::empty(),
        r.owner_at(h) matches Some(id) ==> exists|p: u64| #[trigger]
            r.occupied().contains_key(p) && r.occupied()[p] == id && (p >= h ==> forall|q: u64|
                h <= q < p ==> !#[trigger] r.occupied().contains_key(q)) && (p < h ==> forall|
                q: u64,
            | q >= h || q < p ==> !#[trigger] r.occupied().contains_key(q)),
{
    if r.ring@.len() > 0 {
        let p = lemma_walk_start(r.ring@, h);
        assert(r.occupied().dom().contains(p));
        assert(r.occupied().contains_key(p));
    } else {
        assert forall|q: u64| !r.occupied().contains_key(q) by {
            if r.occupied().contains_key(q) {
                let i = lemma_occupied_index(r.ring@, q);
            }
        }
        assert(r.occupied().dom() =~= Set::<u64>::empty());
    }
}

/// A walk meets the held positions in ascending order from where it starts, and
/// those below it after the highest; the order of preference is the order in
/// which a walk first meets the nodes.
pub proof fn law_walks_go_around_once(r: HashRing, h: u64, i: int, j: int)
    requires
        r.wf(),
        0 <= i < j < r.preference_at(h).len(),
    ensures
        exists|b: int| #[trigger] starts_at(r, h, b),
        exists|m: int|
            0 <= m < r.walk_at(h).len() && r.walk_at(h)[m] == r.preference_at(h)[i] && !(
            #[trigger] r.walk_at(h).take(m + 1)).contains(r.preference_at(h)[j]),
{
    let b = before(r.ring@, h);
    lemma_before(r.ring@, h);
    assert(starts_at(r, h, b));
    lemma_first_met(r.walk_at(h), i, j);
}

/// Whether a walk from a position starts with the point of this number, goes on
/// to the highest one, and then from the lowest one back.
pub open spec fn starts_at(r: HashRing, h: u64, b: int) -> bool {
    let n = r.ring@.len() as int;
    &&& 0 <= b <= n
    &&& forall|k: int| 0 <= k < b ==> (#[trigger] r.ring@[k]).0 < h
    &&& forall|k: int| b <= k < n ==> (#[trigger] r.ring@[k]).0 >= h
    &&& r.walk_at(h).len() == n
    &&& forall|k: int|
        0 <= k < n ==> #[trigger] r.walk_at(h)[k] == (if k < n - b {
            r.ring@[b + k].1@
        } else {
            r.ring@[b + k - n].1@
        })
}

/// Of two distinct elements, the one that is listed first occurs first.
proof fn lemma_first_met(s: Seq<Seq<char>>, i: int, j: int)
    requires
        0 <= i < j < firsts(s).len(),
    ensures
        exists|m: int|
            0 <= m < s.len() && s[m] == firsts(s)[i] && !(#[trigger] s.take(m + 1)).contains(
                firsts(s)[j],
            ),
    decreases s.len(),
{
    let d = s.drop_last();
    let f = firsts(d);
    lemma_firsts(d);
    if j < f.len() {
        lemma_first_met(d, i, j);
        let m = choose|m: int|
            0 <= m < d.len() && d[m] == f[i] && !(#[trigger] d.take(m + 1)).contains(f[j]);
        assert(s.take(m + 1) =~= d.take(m + 1));
        assert(s[m] == d[m]);
    } else {
        assert(f.contains(f[i]));
        assert(d.contains(f[i]));
        let m = d.index_of(f[i]);
        assert(s[m] == f[i]);
        if s.take(m + 1).contains(s.last()) {
            let l = s.take(m + 1).index_of(s.last());
            assert(s.take(m + 1)[l] == s.last());
            assert(d[l] == s.last());
            assert(d.contains(s.last()));
        }
    }
}

} // verus!
