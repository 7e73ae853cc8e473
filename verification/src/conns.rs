use crate::addr::{ConnKey, Endpoint};
use indexmap::IndexMap;
use vstd::prelude::*;

verus! {

/// How often the client moves to another server port, in milliseconds.
pub const HOP_INTERVAL_MS: u64 = 120000;

/// How long a connection lives without being renewed, in milliseconds.
pub const CONN_TIMEOUT_MS: u64 = 240000;

/// The latest clock reading the relay accepts, so that deadlines and
/// timeouts computed from it fit in a `u64`.
pub const TIME_LIMIT_MS: u64 = 18446744073709071615;

/// The poller key of the client's downstream socket, and the first of the
/// server's downstream sockets; connections use their positions as keys.
pub const KEY_MAX: usize = usize::MAX - 1;

/// Where a packet from downstream goes: the position and poller key of
/// its connection, whether the connection was just opened (the caller then
/// opens its upstream socket and registers it under `key`), and the packet's
/// destination.
#[derive(Clone, Copy, Debug, PartialEq, Eq, Structural)]
pub struct Route {
    pub index: usize,
    pub key: usize,
    pub fresh: bool,
    pub dst: Endpoint,
}

/// What a readiness event from the poller is about.
#[derive(Clone, Copy, Debug, PartialEq, Eq, Structural)]
pub enum EventTarget {
    /// The downstream socket of this index.
    Downstream(usize),
    /// The upstream socket of the connection at this position.
    Upstream(usize),
    /// Nothing the relay knows (a stale key): the event is ignored.
    Spurious,
}

/// What the relay keeps of one connection: the peer it serves, the poller
/// key its upstream socket is registered under (given once, when the
/// connection opens, and never changed), when the connection expires
/// (milliseconds on the relay's clock), and the index of the downstream
/// socket through which the peer last reached the relay.
#[derive(Clone, Copy, Debug, PartialEq, Eq, Structural)]
pub struct ConnEntry {
    pub peer: Endpoint,
    pub key: usize,
    pub timeout: u64,
    pub ds_index: usize,
}

impl ConnEntry {
    /// A connection is alive while its timeout lies after `now`.
    pub open spec fn spec_is_live(self, now: u64) -> bool {
        self.timeout > now
    }

    pub fn is_live(&self, now: u64) -> (r: bool)
        ensures
            r == self.spec_is_live(now),
    {
        self.timeout > now
    }
}

/// `indexmap::IndexMap`, a hash map that keeps its entries in insertion order.
#[verifier::external_type_specification]
#[verifier::external_body]
#[verifier::reject_recursive_types(K)]
#[verifier::reject_recursive_types(V)]
#[verifier::reject_recursive_types(S)]
pub struct ExIndexMap<K, V, S>(IndexMap<K, V, S>);

/// The entries of a connection map, in the map's order.
pub uninterp spec fn conn_entries(m: IndexMap<ConnKey, ConnEntry>) -> Seq<(ConnKey, ConnEntry)>;

/// `IndexMap::new`: a map with no entries.
#[verifier::external_body]
fn map_new() -> (m: IndexMap<ConnKey, ConnEntry>)
    ensures
        conn_entries(m) == Seq::<(ConnKey, ConnEntry)>::empty(),
{
    IndexMap::new()
}

/// `IndexMap::len`: the number of entries.
#[verifier::external_body]
fn map_len(m: &IndexMap<ConnKey, ConnEntry>) -> (n: usize)
    ensures
        n == conn_entries(*m).len(),
{
    m.len()
}

/// `IndexMap::get_index_of`: the position of the entry with this key, if
/// there is one.
#[verifier::external_body]
fn map_get_index_of(m: &IndexMap<ConnKey, ConnEntry>, key: &ConnKey) -> (r: Option<usize>)
    ensures
        match r {
            Some(i) => i < conn_entries(*m).len() && conn_entries(*m)[i as int].0 == *key,
            None => forall|i: int|
                0 <= i < conn_entries(*m).len() ==> (#[trigger] conn_entries(*m)[i]).0 != *key,
        },
{
    m.get_index_of(key)
}

/// `IndexMap::get_index`: the entry at a position, copied out.
#[verifier::external_body]
fn map_get_index(m: &IndexMap<ConnKey, ConnEntry>, i: usize) -> (r: Option<(ConnKey, ConnEntry)>)
    ensures
        i < conn_entries(*m).len() ==> r == Some(conn_entries(*m)[i as int]),
        i >= conn_entries(*m).len() ==> r is None,
{
    m.get_index(i).map(|(k, v)| (*k, *v))
}

/// `IndexMap::insert_full`: with a key already present, the value at that
/// key's position is replaced (the key stays where it is) and the old
/// value returned; otherwise the entry goes last.
#[verifier::external_body]
fn map_insert_full(m: &mut IndexMap<ConnKey, ConnEntry>, key: ConnKey, value: ConnEntry) -> (r: (
    usize,
    Option<ConnEntry>,
))
    ensures
        match r.1 {
            Some(prev) => {
                &&& r.0 < conn_entries(*old(m)).len()
                &&& conn_entries(*old(m))[r.0 as int] == (key, prev)
                &&& conn_entries(*final(m)) == conn_entries(*old(m)).update(r.0 as int, (key, value))
            },
            None => {
                &&& forall|i: int|
                    0 <= i < conn_entries(*old(m)).len() ==> (#[trigger] conn_entries(*old(m))[i]).0
                        != key
                &&& r.0 == conn_entries(*old(m)).len()
                &&& conn_entries(*final(m)) == conn_entries(*old(m)).push((key, value))
            },
        },
{
    m.insert_full(key, value)
}

/// `IndexMap::retain` with the test `ConnEntry::is_live(now)`: the live
/// entries stay, in their order; the others leave.
#[verifier::external_body]
fn map_retain_live(m: &mut IndexMap<ConnKey, ConnEntry>, now: u64)
    ensures
        conn_entries(*final(m)) == conn_entries(*old(m)).filter(
            |e: (ConnKey, ConnEntry)| e.1.spec_is_live(now),
        ),
{
    m.retain(|_k, v| v.is_live(now))
}

/// The connections of a relay, keyed by peer, in the order they were
/// opened. Each connection gets a poller key of its own when it opens:
/// keys are handed out in increasing order, below `key_limit`, and never
/// reused, so a key keeps leading to its connection while the positions of
/// connections shift as older ones expire.
pub struct ConnTable {
    map: IndexMap<ConnKey, ConnEntry>,
    next_key: usize,
    key_limit: usize,
}

/// Every peer occurs once, each entry sits under its peer's key, and the
/// poller keys increase with the position and stay below `next_key`.
pub open spec fn entries_wf(s: Seq<(ConnKey, ConnEntry)>, next_key: usize) -> bool {
    &&& forall|i: int, j: int|
        0 <= i < s.len() && 0 <= j < s.len() && i != j ==> (#[trigger] s[i]).0 != (#[trigger] s[j]).0
    &&& forall|i: int| 0 <= i < s.len() ==> (#[trigger] s[i]).0 == s[i].1.peer.spec_key()
    &&& forall|i: int, j: int|
        0 <= i < j < s.len() ==> (#[trigger] s[i]).1.key < (#[trigger] s[j]).1.key
    &&& forall|i: int| 0 <= i < s.len() ==> (#[trigger] s[i]).1.key < next_key
}

/// The positions, in increasing order, of the entries that are no longer
/// alive at `now`.
pub open spec fn expired_positions(s: Seq<(ConnKey, ConnEntry)>, now: u64) -> Seq<usize>
    decreases s.len(),
{
    if s.len() == 0 {
        Seq::empty()
    } else {
        let rest = expired_positions(s.drop_last(), now);
        if s.last().1.spec_is_live(now) {
            rest
        } else {
            rest.push((s.len() - 1) as usize)
        }
    }
}

impl ConnTable {
    /// The connections, in order.
    pub closed spec fn entries(&self) -> Seq<(ConnKey, ConnEntry)> {
        conn_entries(self.map)
    }

    /// The poller key the next connection gets.
    pub closed spec fn next_key(&self) -> usize {
        self.next_key
    }

    /// Poller keys stay below this bound.
    pub closed spec fn key_limit(&self) -> usize {
        self.key_limit
    }

    pub open spec fn wf(&self) -> bool {
        &&& entries_wf(self.entries(), self.next_key())
        &&& self.entries().len() <= self.next_key() <= self.key_limit()
    }

    /// The position of the connection of `peer`, if there is one.
    pub open spec fn position_of(&self, peer: Endpoint) -> Option<int> {
        if exists|i: int| 0 <= i < self.entries().len() && self.entries()[i].0 == peer.spec_key() {
            Some(
                choose|i: int|
                    0 <= i < self.entries().len() && self.entries()[i].0 == peer.spec_key(),
            )
        } else {
            None
        }
    }

    /// The position of the connection registered under the poller key
    /// `key`, if there is one.
    pub open spec fn position_of_key(&self, key: usize) -> Option<int> {
        if exists|i: int| 0 <= i < self.entries().len() && self.entries()[i].1.key == key {
            Some(choose|i: int| 0 <= i < self.entries().len() && self.entries()[i].1.key == key)
        } else {
            None
        }
    }

    /// Closing the connections no longer alive at `now` took `pre` to
    /// `post`, the closed ones having had the positions `gone`.
    pub open spec fn expire_step(pre: ConnTable, post: ConnTable, now: u64, gone: Seq<usize>) -> bool {
        &&& post.next_key() == pre.next_key()
        &&& post.key_limit() == pre.key_limit()
        &&& post.entries() == pre.entries().filter(|e: (ConnKey, ConnEntry)| e.1.spec_is_live(now))
        &&& gone == expired_positions(pre.entries(), now)
    }

    /// No connections; poller keys are handed out from 0 up to, not
    /// including, `key_limit`.
    pub fn new(key_limit: usize) -> (t: ConnTable)
        ensures
            t.wf(),
            t.entries() == Seq::<(ConnKey, ConnEntry)>::empty(),
            t.next_key() == 0,
            t.key_limit() == key_limit,
    {
        ConnTable { map: map_new(), next_key: 0, key_limit }
    }

    pub fn len(&self) -> (n: usize)
        ensures
            n == self.entries().len(),
    {
        map_len(&self.map)
    }

    /// The connection at a position.
    pub fn get(&self, i: usize) -> (r: Option<ConnEntry>)
        ensures
            i < self.entries().len() ==> r == Some(self.entries()[i as int].1),
            i >= self.entries().len() ==> r is None,
    {
        match map_get_index(&self.map, i) {
            Some((_k, v)) => Some(v),
            None => None,
        }
    }

    /// Where the connection of `peer` stands, if it has one.
    pub fn find(&self, peer: &Endpoint) -> (r: Option<usize>)
        requires
            self.wf(),
        ensures
            r matches Some(i) ==> self.position_of(*peer) == Some(i as int),
            r is None ==> self.position_of(*peer) is None,
    {
        let key = peer.key();
        let r = map_get_index_of(&self.map, &key);
        proof {
            if let Some(i) = r {
                let j = choose|j: int|
                    0 <= j < self.entries().len() && self.entries()[j].0 == peer.spec_key();
                assert(self.entries()[i as int].0 == peer.spec_key());
                if j != i {
                    assert(self.entries()[j].0 != self.entries()[i as int].0);
                }
            }
        }
        r
    }

    /// Where the connection registered under the poller key `key` stands,
    /// if there is one.
    pub fn find_key(&self, key: usize) -> (r: Option<usize>)
        requires
            self.wf(),
        ensures
            r matches Some(i) ==> self.position_of_key(key) == Some(i as int),
            r is None ==> self.position_of_key(key) is None,
    {
        let n = map_len(&self.map);
        let mut i: usize = 0;
        while i < n
            invariant
                self.wf(),
                n == self.entries().len(),
                i <= n,
                forall|j: int| 0 <= j < i ==> (#[trigger] self.entries()[j]).1.key != key,
            decreases n - i,
        {
            if let Some((_k, e)) = map_get_index(&self.map, i) {
                if e.key == key {
                    proof {
                        lemma_key_finds_connection(*self, i as int);
                    }
                    return Some(i);
                }
            }
            i = i + 1;
        }
        None
    }

    /// Opens the connection of a peer that has none: it comes last, under
    /// the next poller key. Returns its position and key, or `None`, with
    /// nothing changed, once every key below the limit has been used.
    pub fn insert(&mut self, peer: Endpoint, timeout: u64, ds_index: usize) -> (r: Option<
        (usize, usize),
    >)
        requires
            old(self).wf(),
            old(self).position_of(peer) is None,
        ensures
            final(self).wf(),
            final(self).key_limit() == old(self).key_limit(),
            old(self).next_key() == old(self).key_limit() ==> r is None && *final(self) == *old(
                self,
            ),
            old(self).next_key() < old(self).key_limit() ==> {
                let e = ConnEntry { peer, key: old(self).next_key(), timeout, ds_index };
                &&& r == Some((old(self).entries().len() as usize, old(self).next_key()))
                &&& final(self).entries() == old(self).entries().push((peer.spec_key(), e))
                &&& final(self).next_key() == old(self).next_key() + 1
            },
    {
        if self.next_key == self.key_limit {
            return None;
        }
        let key = self.next_key;
        let e = ConnEntry { peer, key, timeout, ds_index };
        let ghost before = self.entries();
        assert forall|i: int| 0 <= i < before.len() implies (#[trigger] before[i]).0
            != peer.spec_key() by {
            if before[i].0 == peer.spec_key() {
                assert(self.position_of(peer) is Some);
            }
        }
        let (i, prev) = map_insert_full(&mut self.map, peer.key(), e);
        if prev.is_some() {
            proof {
                assert(before[i as int].0 == peer.spec_key());
            }
        }
        self.next_key = key + 1;
        proof {
            let after = self.entries();
            assert(after == before.push((peer.spec_key(), e)));
            assert forall|a: int, b: int|
                0 <= a < after.len() && 0 <= b < after.len() && a != b implies (
                #[trigger] after[a]).0 != (#[trigger] after[b]).0 by {
                if a < before.len() && b < before.len() {
                    assert(after[a] == before[a] && after[b] == before[b]);
                } else if a < before.len() {
                    assert(after[a] == before[a]);
                } else {
                    assert(after[b] == before[b]);
                }
            }
            assert forall|a: int, b: int| 0 <= a < b < after.len() implies (
            #[trigger] after[a]).1.key < (#[trigger] after[b]).1.key by {
                assert(after[a] == before[a]);
                if b < before.len() {
                    assert(after[b] == before[b]);
                }
            }
            assert forall|a: int| 0 <= a < after.len() implies (#[trigger] after[a]).0
                == after[a].1.peer.spec_key() && after[a].1.key < self.next_key by {
                if a < before.len() {
                    assert(after[a] == before[a]);
                }
            }
        }
        Some((i, key))
    }

    /// Renews the connection at position `i` with a new timeout and
    /// downstream socket; its peer, its key and its position stay.
    pub fn update(&mut self, i: usize, timeout: u64, ds_index: usize)
        requires
            old(self).wf(),
            i < old(self).entries().len(),
        ensures
            final(self).wf(),
            final(self).next_key() == old(self).next_key(),
            final(self).key_limit() == old(self).key_limit(),
            final(self).entries() == old(self).entries().update(
                i as int,
                (
                    old(self).entries()[i as int].0,
                    ConnEntry { timeout, ds_index, ..old(self).entries()[i as int].1 },
                ),
            ),
    {
        let ghost before = self.entries();
        if let Some((k, e)) = map_get_index(&self.map, i) {
            let renewed = ConnEntry { timeout, ds_index, ..e };
            let (j, prev) = map_insert_full(&mut self.map, k, renewed);
            proof {
                if prev is None {
                    assert(before[i as int].0 == k);
                }
                if j != i {
                    assert(before[j as int].0 != before[i as int].0);
                }
                let after = self.entries();
                assert(after == before.update(i as int, (k, renewed)));
                assert forall|a: int, b: int|
                    0 <= a < after.len() && 0 <= b < after.len() && a != b implies (
                    #[trigger] after[a]).0 != (#[trigger] after[b]).0 by {
                    assert(before[a].0 == after[a].0 && before[b].0 == after[b].0);
                }
                assert forall|a: int, b: int| 0 <= a < b < after.len() implies (
                #[trigger] after[a]).1.key < (#[trigger] after[b]).1.key by {
                    assert(before[a].1.key == after[a].1.key && before[b].1.key == after[b].1.key);
                }
                assert forall|a: int| 0 <= a < after.len() implies (#[trigger] after[a]).0
                    == after[a].1.peer.spec_key() && after[a].1.key < self.next_key by {
                    assert(before[a].0 == after[a].0 && before[a].1.peer == after[a].1.peer);
                    assert(before[a].1.key == after[a].1.key);
                }
            }
        }
    }

    /// Closes the connections that are no longer alive at `now`, keeping the
    /// order of the others and their keys. Returns the positions the closed
    /// ones had, in increasing order.
    pub fn expire(&mut self, now: u64) -> (gone: Vec<usize>)
        requires
            old(self).wf(),
        ensures
            final(self).wf(),
            Self::expire_step(*old(self), *final(self), now, gone@),
    {
        let n = map_len(&self.map);
        let ghost s = self.entries();
        let mut gone: Vec<usize> = Vec::new();
        let mut i: usize = 0;
        while i < n
            invariant
                n == s.len(),
                s == self.entries(),
                i <= n,
                gone@ == expired_positions(s.take(i as int), now),
            decreases n - i,
        {
            assert(s.take(i + 1).drop_last() =~= s.take(i as int));
            if let Some((_k, v)) = map_get_index(&self.map, i) {
                if !v.is_live(now) {
                    gone.push(i);
                }
            }
            i = i + 1;
        }
        assert(s.take(n as int) =~= s);
        map_retain_live(&mut self.map, now);
        proof {
            lemma_filter_keeps_wf(s, now, self.next_key);
            s.lemma_filter_len(|e: (ConnKey, ConnEntry)| e.1.spec_is_live(now));
        }
        gone
    }
}

/// A connection's poller key leads to it, wherever older connections'
/// expiry has moved it.
pub proof fn lemma_key_finds_connection(t: ConnTable, i: int)
    requires
        t.wf(),
        0 <= i < t.entries().len(),
    ensures
        t.position_of_key(t.entries()[i].1.key) == Some(i),
{
    let s = t.entries();
    let k = s[i].1.key;
    assert(exists|j: int| 0 <= j < s.len() && s[j].1.key == k);
    let j = choose|j: int| 0 <= j < s.len() && s[j].1.key == k;
    if j < i {
        assert(s[j].1.key < s[i].1.key);
    } else if i < j {
        assert(s[i].1.key < s[j].1.key);
    }
}

proof fn lemma_filter_keeps_wf(s: Seq<(ConnKey, ConnEntry)>, now: u64, next_key: usize)
    requires
        entries_wf(s, next_key),
    ensures
        entries_wf(s.filter(|e: (ConnKey, ConnEntry)| e.1.spec_is_live(now)), next_key),
    decreases s.len(),
{
    let f = |e: (ConnKey, ConnEntry)| e.1.spec_is_live(now);
    reveal_with_fuel(Seq::filter, 1);
    if s.len() > 0 {
        let p = s.drop_last();
        assert(entries_wf(p, next_key)) by {
            assert forall|a: int, b: int| 0 <= a < b < p.len() implies (#[trigger] p[a]).1.key
                < (#[trigger] p[b]).1.key by {
                assert(s[a] == p[a] && s[b] == p[b]);
            }
        }
        lemma_filter_keeps_wf(p, now, next_key);
        let fp = p.filter(f);
        if f(s.last()) {
            assert(s.filter(f) == fp.push(s.last()));
            assert forall|k: int| 0 <= k < fp.len() implies (#[trigger] fp[k]).0 != s.last().0
                && fp[k].1.key < s.last().1.key by {
                assert(fp.contains(fp[k]));
                p.lemma_filter_contains_rev(f, fp[k]);
                let j = choose|j: int| 0 <= j < p.len() && p[j] == fp[k];
                assert(s[j] == p[j]);
                assert(s[s.len() - 1] == s.last());
            }
            let t = s.filter(f);
            assert forall|a: int, b: int| 0 <= a < b < t.len() implies (#[trigger] t[a]).1.key
                < (#[trigger] t[b]).1.key by {
                if b == t.len() - 1 {
                    assert(t[a] == fp[a]);
                } else {
                    assert(t[a] == fp[a] && t[b] == fp[b]);
                }
            }
            assert forall|a: int, b: int|
                0 <= a < t.len() && 0 <= b < t.len() && a != b implies (#[trigger] t[a]).0 != (
                #[trigger] t[b]).0 by {
                if a < fp.len() && b < fp.len() {
                    assert(t[a] == fp[a] && t[b] == fp[b]);
                } else if a < fp.len() {
                    assert(t[a] == fp[a]);
                } else {
                    assert(t[b] == fp[b]);
                }
            }
            assert forall|a: int| 0 <= a < t.len() implies (#[trigger] t[a]).0 == t[a].1.peer.spec_key()
                && t[a].1.key < next_key by {
                if a < fp.len() {
                    assert(t[a] == fp[a]);
                }
            }
        } else {
            assert(s.filter(f) == fp);
        }
    }
}

/// The positions `expired_positions` gives are exactly those of the
/// entries no longer alive.
proof fn lemma_expired_positions(s: Seq<(ConnKey, ConnEntry)>, now: u64)
    requires
        s.len() <= usize::MAX,
    ensures
        forall|x: usize|
            #[trigger] expired_positions(s, now).contains(x) <==> (x < s.len()
                && !s[x as int].1.spec_is_live(now)),
    decreases s.len(),
{
    if s.len() > 0 {
        let p = s.drop_last();
        lemma_expired_positions(p, now);
        let rest = expired_positions(p, now);
        assert forall|x: usize| #[trigger] expired_positions(s, now).contains(x) <==> (x < s.len()
            && !s[x as int].1.spec_is_live(now)) by {
            if x < p.len() {
                assert(s[x as int] == p[x as int]);
            }
            if !s.last().1.spec_is_live(now) {
                let q = rest.push((s.len() - 1) as usize);
                assert(q.contains(x) <==> (rest.contains(x) || x == s.len() - 1)) by {
                    if q.contains(x) {
                        let k = choose|k: int| 0 <= k < q.len() && q[k] == x;
                        if k < rest.len() {
                            assert(rest[k] == q[k]);
                        }
                    }
                    if rest.contains(x) {
                        let k = choose|k: int| 0 <= k < rest.len() && rest[k] == x;
                        assert(q[k] == rest[k]);
                    }
                    if x == s.len() - 1 {
                        assert(q[q.len() - 1] == x);
                    }
                }
            }
        }
    }
}

/// What closing the expired connections does, in every state: the
/// connections left are all alive at `now`; every connection alive at
/// `now` is still there, unchanged and found through its key; every
/// other one is gone, neither its key nor its peer leads anywhere; and the
/// positions reported are exactly those of the closed connections.
pub proof fn lemma_expire_keeps_exactly_the_live(
    pre: ConnTable,
    post: ConnTable,
    now: u64,
    gone: Seq<usize>,
)
    requires
        pre.wf(),
        post.wf(),
        ConnTable::expire_step(pre, post, now, gone),
    ensures
        forall|j: int|
            0 <= j < post.entries().len() ==> (#[trigger] post.entries()[j]).1.timeout > now,
        forall|i: int|
            0 <= i < pre.entries().len() && (#[trigger] pre.entries()[i]).1.timeout > now ==> {
                &&& post.position_of_key(pre.entries()[i].1.key) is Some
                &&& post.entries()[post.position_of_key(pre.entries()[i].1.key).unwrap()]
                    == pre.entries()[i]
            },
        forall|i: int|
            0 <= i < pre.entries().len() && (#[trigger] pre.entries()[i]).1.timeout <= now ==> {
                &&& post.position_of_key(pre.entries()[i].1.key) is None
                &&& post.position_of(pre.entries()[i].1.peer) is None
            },
        forall|x: usize|
            #[trigger] gone.contains(x) <==> (x < pre.entries().len()
                && pre.entries()[x as int].1.timeout <= now),
{
    let s = pre.entries();
    let t = post.entries();
    let f = |e: (ConnKey, ConnEntry)| e.1.spec_is_live(now);
    assert(t == s.filter(f));
    lemma_expired_positions(s, now);
    assert forall|j: int| 0 <= j < t.len() implies (#[trigger] t[j]).1.timeout > now by {
        s.lemma_filter_pred(f, j);
    }
    assert forall|i: int| 0 <= i < s.len() && (#[trigger] s[i]).1.timeout > now implies {
        &&& post.position_of_key(s[i].1.key) is Some
        &&& t[post.position_of_key(s[i].1.key).unwrap()] == s[i]
    } by {
        s.lemma_filter_contains(f, i);
        let j = choose|j: int| 0 <= j < t.len() && t[j] == s[i];
        lemma_key_finds_connection(post, j);
    }
    assert forall|i: int| 0 <= i < s.len() && (#[trigger] s[i]).1.timeout <= now implies {
        &&& post.position_of_key(s[i].1.key) is None
        &&& post.position_of(s[i].1.peer) is None
    } by {
        if post.position_of_key(s[i].1.key) is Some {
            let j = choose|j: int| 0 <= j < t.len() && t[j].1.key == s[i].1.key;
            assert(t.contains(t[j]));
            s.lemma_filter_contains_rev(f, t[j]);
            let m = choose|m: int| 0 <= m < s.len() && s[m] == t[j];
            if m < i {
                assert(s[m].1.key < s[i].1.key);
            } else if i < m {
                assert(s[i].1.key < s[m].1.key);
            }
            s.lemma_filter_pred(f, j);
        }
        if post.position_of(s[i].1.peer) is Some {
            let j = choose|j: int| 0 <= j < t.len() && t[j].0 == s[i].1.peer.spec_key();
            assert(t.contains(t[j]));
            s.lemma_filter_contains_rev(f, t[j]);
            let m = choose|m: int| 0 <= m < s.len() && s[m] == t[j];
            assert(s[i].0 == s[i].1.peer.spec_key());
            if m != i {
                assert(s[m].0 != s[i].0);
            }
            s.lemma_filter_pred(f, j);
        }
    }
}

} // verus!
