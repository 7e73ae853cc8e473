use crate::addr::{ConnKey, Endpoint, IpAddress};
use crate::args::ServerOpts;
use crate::conns::{
    lemma_expire_keeps_exactly_the_live, lemma_key_finds_connection, ConnEntry, ConnTable,
    EventTarget, Route,
    CONN_TIMEOUT_MS, KEY_MAX, TIME_LIMIT_MS,
};
use vstd::prelude::*;

verus! {

/// The decisions of the server side of the relay. It listens on one
/// downstream socket per port of its range; each peer that reaches any of
/// them gets a connection, with an upstream socket of its own, to the
/// upstream server. Replies go back through the downstream socket on which
/// the peer was last heard.
pub struct ServerCore {
    opts: ServerOpts,
    conns: ConnTable,
}

impl ServerCore {
    pub closed spec fn opts(&self) -> ServerOpts {
        self.opts
    }

    pub closed spec fn conns(&self) -> ConnTable {
        self.conns
    }

    /// How many downstream sockets there are: one per port of the range.
    pub open spec fn spec_ds_count(&self) -> int {
        self.opts().pr_max - self.opts().pr_min + 1
    }

    pub open spec fn wf(&self) -> bool {
        &&& self.conns().wf()
        &&& self.conns().key_limit() == KEY_MAX - (self.opts().pr_max - self.opts().pr_min)
        &&& self.opts().pr_min <= self.opts().pr_max
        &&& forall|i: int|
            0 <= i < self.conns().entries().len() ==> (#[trigger] self.conns().entries()[i]).1.ds_index
                < self.spec_ds_count()
    }

    /// The poller key of the downstream socket of index `i`.
    pub open spec fn spec_ds_key(i: int) -> int {
        KEY_MAX - i
    }

    pub open spec fn spec_classify(&self, key: usize) -> EventTarget {
        let span = self.opts().pr_max - self.opts().pr_min;
        if KEY_MAX - span <= key && key <= KEY_MAX {
            EventTarget::Downstream((KEY_MAX - key) as usize)
        } else {
            match self.conns().position_of_key(key) {
                Some(i) => EventTarget::Upstream(i as usize),
                None => EventTarget::Spurious,
            }
        }
    }

    /// A packet from `src` on the downstream socket `ds_index` at time
    /// `now` took `pre` to `post`, returning `r`. A known peer keeps its
    /// timeout and only moves to that socket; a new one gets a connection
    /// that lives `CONN_TIMEOUT_MS`, under the next key, or, with every key
    /// used, the packet is dropped (`None`). Packets go to the upstream
    /// server.
    pub open spec fn downstream_step(
        pre: ServerCore,
        post: ServerCore,
        ds_index: usize,
        src: Endpoint,
        now: u64,
        r: Option<Route>,
    ) -> bool {
        let dst = pre.opts().us_addr;
        &&& post.opts() == pre.opts()
        &&& post.conns().key_limit() == pre.conns().key_limit()
        &&& match pre.conns().position_of(src) {
            Some(i) => {
                let e = pre.conns().entries()[i].1;
                &&& r == Some(Route { index: i as usize, key: e.key, fresh: false, dst })
                &&& post.conns().entries() == pre.conns().entries().update(
                    i,
                    (src.spec_key(), ConnEntry { ds_index, ..e }),
                )
                &&& post.conns().next_key() == pre.conns().next_key()
            },
            None => if pre.conns().next_key() < pre.conns().key_limit() {
                let key = pre.conns().next_key();
                let timeout = (now + CONN_TIMEOUT_MS) as u64;
                &&& r == Some(
                    Route { index: pre.conns().entries().len() as usize, key, fresh: true, dst },
                )
                &&& post.conns().entries() == pre.conns().entries().push(
                    (src.spec_key(), ConnEntry { peer: src, key, timeout, ds_index }),
                )
                &&& post.conns().next_key() == key + 1
            } else {
                r is None && post.conns() == pre.conns()
            },
        }
    }

    /// What a packet from `src` on the upstream socket of the connection at
    /// `index` gives: only packets from the upstream server go on, to the
    /// connection's peer through the downstream socket it was last heard on.
    pub open spec fn upstream_result(
        s: ServerCore,
        index: usize,
        src: Endpoint,
        r: Option<(usize, Endpoint)>,
    ) -> bool {
        &&& src == s.opts().us_addr ==> r == Some(
            (
                s.conns().entries()[index as int].1.ds_index,
                s.conns().entries()[index as int].1.peer,
            ),
        )
        &&& src != s.opts().us_addr ==> r is None
    }

    /// The server side with no connections.
    pub fn new(opts: ServerOpts) -> (s: ServerCore)
        requires
            opts.pr_min <= opts.pr_max,
        ensures
            s.wf(),
            s.opts() == opts,
            s.conns().entries().len() == 0,
            s.conns().next_key() == 0,
    {
        let span = (opts.pr_max - opts.pr_min) as usize;
        ServerCore { opts, conns: ConnTable::new(KEY_MAX - span) }
    }

    /// How many downstream sockets there are.
    pub fn ds_count(&self) -> (n: usize)
        requires
            self.wf(),
        ensures
            n == self.spec_ds_count(),
    {
        (self.opts.pr_max - self.opts.pr_min) as usize + 1
    }

    /// The port the downstream socket of index `i` listens on.
    pub fn ds_port(&self, i: usize) -> (p: u16)
        requires
            self.wf(),
            i < self.spec_ds_count(),
        ensures
            p == self.opts().pr_min + i,
    {
        (self.opts.pr_min as usize + i) as u16
    }

    /// The poller key of the downstream socket of index `i`.
    pub fn ds_key(&self, i: usize) -> (k: usize)
        requires
            self.wf(),
            i < self.spec_ds_count(),
        ensures
            k == Self::spec_ds_key(i as int),
    {
        KEY_MAX - i
    }

    /// The upstream server.
    pub fn upstream_addr(&self) -> (a: Endpoint)
        ensures
            a == self.opts().us_addr,
    {
        self.opts.us_addr
    }

    /// The address new upstream sockets are bound to: the unspecified
    /// address of the upstream server's family.
    pub fn bind_ip(&self) -> (ip: IpAddress)
        ensures
            ip == self.opts().us_addr.spec_ip().spec_unspecified(),
    {
        self.opts.us_addr.ip().unspecified()
    }

    pub fn conn_count(&self) -> (n: usize)
        ensures
            n == self.conns().entries().len(),
    {
        self.conns.len()
    }

    /// What the poller key `key` stands for.
    pub fn classify(&self, key: usize) -> (t: EventTarget)
        requires
            self.wf(),
        ensures
            t == self.spec_classify(key),
    {
        let span = (self.opts.pr_max - self.opts.pr_min) as usize;
        if KEY_MAX - span <= key && key <= KEY_MAX {
            EventTarget::Downstream(KEY_MAX - key)
        } else {
            match self.conns.find_key(key) {
                Some(i) => EventTarget::Upstream(i),
                None => EventTarget::Spurious,
            }
        }
    }

    /// Closes the connections no longer alive at `now`, keeping the order
    /// of the others; returns the positions the closed ones had.
    pub fn tick(&mut self, now: u64) -> (gone: Vec<usize>)
        requires
            old(self).wf(),
        ensures
            final(self).wf(),
            final(self).opts() == old(self).opts(),
            ConnTable::expire_step(old(self).conns(), final(self).conns(), now, gone@),
    {
        let ghost s = self.conns.entries();
        let gone = self.conns.expire(now);
        proof {
            let f = |e: (ConnKey, ConnEntry)| e.1.spec_is_live(now);
            let t = self.conns.entries();
            assert forall|i: int| 0 <= i < t.len() implies (#[trigger] t[i]).1.ds_index
                < self.spec_ds_count() by {
                assert(t.contains(t[i]));
                s.lemma_filter_contains_rev(f, t[i]);
            }
        }
        gone
    }

    /// A packet from `src` on the downstream socket `ds_index`: the peer's
    /// connection now answers through that socket; a new peer gets a
    /// connection (the caller opens its upstream socket, bound to
    /// `bind_ip`, and registers it under the route's key). The packet goes
    /// to the upstream server.
    pub fn on_downstream(&mut self, ds_index: usize, src: Endpoint, now: u64) -> (r: Option<Route>)
        requires
            old(self).wf(),
            ds_index < old(self).spec_ds_count(),
            now <= TIME_LIMIT_MS,
        ensures
            final(self).wf(),
            Self::downstream_step(*old(self), *final(self), ds_index, src, now, r),
    {
        let ghost pre = self.conns.entries();
        let dst = self.opts.us_addr;
        let r = match self.conns.find(&src) {
            Some(i) => {
                let e = match self.conns.get(i) {
                    Some(e) => e,
                    None => {
                        proof {
                            assert(false);
                        }
                        return None;
                    },
                };
                self.conns.update(i, e.timeout, ds_index);
                Some(Route { index: i, key: e.key, fresh: false, dst })
            },
            None => match self.conns.insert(src, now + CONN_TIMEOUT_MS, ds_index) {
                Some((i, key)) => Some(Route { index: i, key, fresh: true, dst }),
                None => None,
            },
        };
        proof {
            let t = self.conns.entries();
            assert forall|k: int| 0 <= k < t.len() implies (#[trigger] t[k]).1.ds_index
                < self.spec_ds_count() by {
                if k < pre.len() && t[k] != pre[k] {
                    assert(t[k].1.ds_index == ds_index);
                } else if k < pre.len() {
                    assert(t[k] == pre[k]);
                }
            }
        }
        r
    }

    /// A packet on the upstream socket of the connection at `index`, from
    /// `src`. Only packets from the upstream server go on: to the
    /// connection's peer, through the downstream socket it was last heard
    /// on. Returns that socket's index and the peer.
    pub fn on_upstream(&self, index: usize, src: Endpoint) -> (r: Option<(usize, Endpoint)>)
        requires
            self.wf(),
            index < self.conns().entries().len(),
        ensures
            Self::upstream_result(*self, index, src, r),
    {
        if src == self.opts.us_addr {
            match self.conns.get(index) {
                Some(e) => Some((e.ds_index, e.peer)),
                None => {
                    proof {
                        assert(false);
                    }
                    None
                },
            }
        } else {
            None
        }
    }
}

/// The keys of the downstream sockets and of the connections never meet:
/// every downstream socket's key leads back to that socket, and in every
/// state the server side reaches, the key of every live connection leads to
/// that connection, whatever connections opened or expired before.
pub proof fn lemma_server_keys_round_trip(s: ServerCore, i: int, j: int)
    requires
        s.wf(),
    ensures
        0 <= i < s.spec_ds_count() ==> s.spec_classify(ServerCore::spec_ds_key(i) as usize)
            == EventTarget::Downstream(i as usize),
        0 <= j < s.conns().entries().len() ==> s.spec_classify(s.conns().entries()[j].1.key)
            == EventTarget::Upstream(j as usize),
{
    if 0 <= j < s.conns().entries().len() {
        lemma_key_finds_connection(s.conns(), j);
        assert(s.conns().entries()[j].1.key < s.conns().next_key());
    }
}

/// What the server side promises each peer, in every state it reaches: a
/// packet from the upstream server on the upstream socket of a live
/// connection (found through its key) goes to the connection's peer,
/// through the downstream socket the peer was last heard on, and that
/// socket exists.
pub proof fn lemma_server_replies_reach_sender(s: ServerCore, j: int)
    requires
        s.wf(),
        0 <= j < s.conns().entries().len(),
    ensures
        s.spec_classify(s.conns().entries()[j].1.key) == EventTarget::Upstream(j as usize),
        s.conns().entries()[j].0 == s.conns().entries()[j].1.peer.spec_key(),
        s.conns().entries()[j].1.ds_index < s.spec_ds_count(),
{
    lemma_server_keys_round_trip(s, 0, j);
}

/// After a packet of `src` came in on the downstream socket `ds_index`,
/// its connection answers through that socket.
pub proof fn lemma_server_follows_last_socket(
    pre: ServerCore,
    post: ServerCore,
    ds_index: usize,
    src: Endpoint,
    now: u64,
    r: Route,
)
    requires
        pre.wf(),
        post.wf(),
        ServerCore::downstream_step(pre, post, ds_index, src, now, Some(r)),
    ensures
        post.conns().entries()[r.index as int].1.peer == src,
        post.conns().entries()[r.index as int].1.ds_index == ds_index,
        post.conns().entries()[r.index as int].1.key == r.key,
{
    let t = post.conns().entries();
    if let Some(k) = pre.conns().position_of(src) {
        let p = pre.conns().entries();
        assert(0 <= k < p.len() && p[k].0 == src.spec_key());
        assert(p[k].0 == p[k].1.peer.spec_key());
        crate::addr::lemma_key_injective(src, p[k].1.peer);
        assert(t[k] == (src.spec_key(), ConnEntry { ds_index, ..p[k].1 }));
    } else {
        assert(pre.conns().next_key() < pre.conns().key_limit());
        assert(r.index == pre.conns().entries().len());
    }
}

/// What a datagram from a peer does on the server side, in every state: it
/// goes to the upstream server through the connection of that very peer
/// (whatever connections expired before), registered under the key the
/// route names, which now answers through the downstream socket the
/// datagram came in on. A known peer keeps its connection's position, key
/// and timeout, so no connection expires earlier than `CONN_TIMEOUT_MS`
/// after it opened; a new peer's connection comes last and lives
/// `CONN_TIMEOUT_MS` from `now`. All other connections stay as they were.
/// A datagram is dropped only when it would open a connection and every
/// key is used.
pub proof fn lemma_server_datagram_uses_senders_connection(
    pre: ServerCore,
    post: ServerCore,
    ds_index: usize,
    src: Endpoint,
    now: u64,
    r: Option<Route>,
)
    requires
        pre.wf(),
        post.wf(),
        now <= TIME_LIMIT_MS,
        ServerCore::downstream_step(pre, post, ds_index, src, now, r),
    ensures
        r is None ==> pre.conns().position_of(src) is None && pre.conns().next_key()
            == pre.conns().key_limit() && post.conns() == pre.conns(),
        r matches Some(route) ==> {
            let s = post.conns().entries();
            let p = pre.conns().entries();
            &&& route.index < s.len()
            &&& s[route.index as int].1.peer == src
            &&& s[route.index as int].1.key == route.key
            &&& s[route.index as int].1.ds_index == ds_index
            &&& route.dst == pre.opts().us_addr
            &&& route.fresh == (pre.conns().position_of(src) is None)
            &&& !route.fresh ==> {
                &&& route.index == pre.conns().position_of(src).unwrap()
                &&& route.key == p[route.index as int].1.key
                &&& s[route.index as int].1.timeout == p[route.index as int].1.timeout
            }
            &&& route.fresh ==> route.index == p.len() && s[route.index as int].1.timeout == now
                + CONN_TIMEOUT_MS
            &&& forall|j: int| 0 <= j < p.len() && j != route.index ==> #[trigger] s[j] == p[j]
        },
{
    let p = pre.conns().entries();
    if let Some(k) = pre.conns().position_of(src) {
        assert(0 <= k < p.len() && p[k].0 == src.spec_key());
        assert(p[k].0 == p[k].1.peer.spec_key());
        crate::addr::lemma_key_injective(src, p[k].1.peer);
    }
}

/// A packet from a peer and the reply to it: once a datagram of `src` came
/// in on the downstream socket `ds_index` and went out on a route, the key
/// of that route leads to its connection, and a datagram from the upstream
/// server arriving on that connection's upstream socket goes back to `src`
/// through that same downstream socket; one from anywhere else is dropped.
pub proof fn lemma_server_round_trip(
    s0: ServerCore,
    s1: ServerCore,
    ds_index: usize,
    src: Endpoint,
    now: u64,
    route: Route,
    reply_from: Endpoint,
    back: Option<(usize, Endpoint)>,
)
    requires
        s0.wf(),
        s1.wf(),
        now <= TIME_LIMIT_MS,
        ServerCore::downstream_step(s0, s1, ds_index, src, now, Some(route)),
        ServerCore::upstream_result(s1, route.index, reply_from, back),
    ensures
        s1.spec_classify(route.key) == EventTarget::Upstream(route.index),
        reply_from == s0.opts().us_addr ==> back == Some((ds_index, src)),
        reply_from != s0.opts().us_addr ==> back is None,
{
    lemma_server_datagram_uses_senders_connection(s0, s1, ds_index, src, now, Some(route));
    lemma_server_keys_round_trip(s1, 0, route.index as int);
}

/// What the bookkeeping at time `now` does on the server side, in every
/// state: the connections left are alive at `now`, those alive are kept
/// and found through their keys, the others are gone, and the positions
/// reported are exactly theirs.
pub proof fn lemma_server_tick(pre: ServerCore, post: ServerCore, now: u64, gone: Seq<usize>)
    requires
        pre.wf(),
        post.wf(),
        ConnTable::expire_step(pre.conns(), post.conns(), now, gone),
    ensures
        forall|j: int|
            0 <= j < post.conns().entries().len() ==> (#[trigger] post.conns().entries()[j]).1.timeout
                > now,
        forall|i: int|
            0 <= i < pre.conns().entries().len() && (#[trigger] pre.conns().entries()[i]).1.timeout
                > now ==> post.conns().position_of_key(pre.conns().entries()[i].1.key) is Some,
        forall|i: int|
            0 <= i < pre.conns().entries().len() && (#[trigger] pre.conns().entries()[i]).1.timeout
                <= now ==> post.conns().position_of_key(pre.conns().entries()[i].1.key) is None,
        forall|x: usize|
            #[trigger] gone.contains(x) <==> (x < pre.conns().entries().len()
                && pre.conns().entries()[x as int].1.timeout <= now),
{
    lemma_expire_keeps_exactly_the_live(pre.conns(), post.conns(), now, gone);
}

/// How the server side reads poller keys, in every state: each key
/// `KEY_MAX - i` of a port of the range is that port's downstream socket,
/// the key of every live connection leads to it (see
/// `lemma_server_keys_round_trip`), and a key below those that no live connection holds leads nowhere.
pub proof fn lemma_server_classify(s: ServerCore, key: usize)
    requires
        s.wf(),
    ensures
        KEY_MAX - (s.opts().pr_max - s.opts().pr_min) <= key <= KEY_MAX ==> s.spec_classify(key)
            == EventTarget::Downstream((KEY_MAX - key) as usize),
        key < KEY_MAX - (s.opts().pr_max - s.opts().pr_min) && (forall|i: int|
            0 <= i < s.conns().entries().len() ==> (#[trigger] s.conns().entries()[i]).1.key
                != key) ==> s.spec_classify(key) == EventTarget::Spurious,
{
}

} // verus!
